//! What the output of a command that serves a subtree stands for.

use vstd::prelude::*;

use crate::config::lower;
use crate::config::lowered;
use crate::mibgroup::pass::command_of;
use crate::mibgroup::pass::pass_directive;
use crate::mibgroup::pass::pass_value;
use crate::mibgroup::pass::reply_of;
use crate::mibgroup::pass::shell_words;
use crate::mibgroup::pass::without_line_end;
use crate::mibgroup::pass::Quoting;
use crate::mibgroup::pass::ReplyView;
use crate::oid::oid_text;
use crate::oid::oid_text_reads_back;
use crate::oid::parse_oid;
use crate::text::decimal;
use crate::text::is_space;
use crate::text::lemma_decimal;
use crate::text::lines;
use crate::text::signed_value;
use crate::text::trim;
use crate::text::trim_end;
use crate::text::unsigned_value;
use crate::text::words;
use crate::text_laws::is_blank;
use crate::text_laws::is_plain_word;
use crate::text_laws::is_tight;
use crate::text_laws::lacks;
use crate::text_laws::last_line_needs_no_line_feed;
use crate::text_laws::lines_end_with_a_line_feed;
use crate::text_laws::minus_negates;
use crate::text_laws::only_digits_spell_numbers;
use crate::text_laws::trimming_takes_the_white_space;
use crate::text_laws::white_space_parts_words;
use crate::value::utf8;
use crate::value::ValueView;

verus! {

proof fn lemma_oid_text_is_a_word(o: Seq<u32>)
    requires
        o.len() > 0,
    ensures
        oid_text(o).len() > 0,
        oid_text(o)[0] == '.',
        forall|i: int|
            0 <= i < oid_text(o).len() ==> '.' <= #[trigger] oid_text(o)[i] <= '9',
    decreases o.len(),
{
    let d = decimal(o[0] as nat);
    lemma_decimal(o[0] as nat);
    let rest = oid_text(o.drop_first());
    if o.len() > 1 {
        lemma_oid_text_is_a_word(o.drop_first());
    }
    let s = oid_text(o);
    assert forall|i: int| 0 <= i < s.len() implies '.' <= #[trigger] s[i] <= '9' by {
        if 0 < i <= d.len() {
            assert(s[i] == d[i - 1]);
        } else if i > d.len() {
            assert(s[i] == rest[i - 1 - d.len()]);
        }
    }
}

proof fn lemma_trim_tight(s: Seq<char>)
    requires
        is_tight(s),
    ensures
        trim(s) == s,
{
    let e = Seq::<char>::empty();
    trimming_takes_the_white_space(e, s, e);
    assert(e + s + e =~= s);
}

/// A command that prints an instance, a type and a value, each on a line of its own, is understood
/// to have said just these: the whole of the value line is the value.
#[verifier::rlimit(40)]
pub proof fn reply_has_the_whole_value(o: Seq<u32>, t: Seq<char>, x: Seq<char>)
    requires
        o.len() > 0,
        is_tight(t),
        lacks(t, '\n'),
        lacks(x, '\n'),
        x.len() > 0 ==> !is_space(x[x.len() - 1]),
    ensures
        reply_of(oid_text(o) + seq!['\n'] + t + seq!['\n'] + x + seq!['\n']) == Some(
            ReplyView { oid: o, type_token: t, value: x },
        ),
        reply_of(oid_text(o) + seq!['\n'] + t + seq!['\n'] + x) == Some(
            ReplyView { oid: o, type_token: t, value: x },
        ),
{
    reveal_strlit("NONE");
    let e = Seq::<char>::empty();
    let n = seq!['\n'];
    let a = oid_text(o);
    lemma_oid_text_is_a_word(o);
    assert(!is_space(a[0]) && !is_space(a[a.len() - 1]));
    lemma_trim_tight(a);
    lemma_trim_tight(t);
    oid_text_reads_back(o);
    assert(lowered(a)[0] == lower(a[0]));
    assert(lowered("NONE"@)[0] == lower('N'));
    let full = a + n + t + n + x + n;
    assert(full =~= a + n + (t + n + (x + n + e)));
    lines_end_with_a_line_feed(a, t + n + (x + n + e));
    lines_end_with_a_line_feed(t, x + n + e);
    lines_end_with_a_line_feed(x, e);
    last_line_needs_no_line_feed(e);
    assert(lines(full) =~= seq![a, t, x]);
    if x.len() > 0 {
        trimming_takes_the_white_space(e, seq![x[x.len() - 1]], e);
    }
    assert(trim_end(x) == x);
    let open = a + n + t + n + x;
    assert(open =~= a + n + (t + n + x));
    lines_end_with_a_line_feed(a, t + n + x);
    lines_end_with_a_line_feed(t, x);
    last_line_needs_no_line_feed(x);
    if x.len() > 0 {
        assert(lines(open) =~= seq![a, t, x]);
    } else {
        assert(lines(open) =~= seq![a, t]);
        assert(x =~= e);
    }
}

/// What a command prints for an instance that it has as text is what a GET answers, in full.
pub proof fn printed_text_is_answered(o: Seq<u32>, x: Seq<char>)
    requires
        o.len() > 0,
        lacks(x, '\n'),
        x.len() > 0 ==> !is_space(x[x.len() - 1]),
    ensures
        reply_of(oid_text(o) + "\nstring\n"@ + x + "\n"@) matches Some(p) && p.oid == o
            && pass_value(p.type_token, p.value) == ValueView::OctetString(utf8(x)),
{
    reveal_strlit("\nstring\n");
    reveal_strlit("\n");
    reveal_strlit("string");
    let t = "string"@;
    let n = seq!['\n'];
    assert(oid_text(o) + "\nstring\n"@ + x + "\n"@ =~= oid_text(o) + n + t + n + x + n);
    reply_has_the_whole_value(o, t, x);
    lemma_type_names();
    assert(lowered(t)[0] == 's');
    other_types_are_text(t, x);
}

/// A command that prints nothing, an empty line or `NONE` in whatever case first has no such
/// instance, whatever it prints behind that.
pub proof fn none_is_no_reply(a: Seq<char>, w: Seq<char>, b: Seq<char>, rest: Seq<char>)
    requires
        is_blank(a),
        is_blank(b),
        lacks(a, '\n'),
        lacks(b, '\n'),
        w.len() == 0 || (w.len() == 4 && (w[0] == 'N' || w[0] == 'n') && (w[1] == 'O' || w[1]
            == 'o') && (w[2] == 'N' || w[2] == 'n') && (w[3] == 'E' || w[3] == 'e')),
        b.len() > 0 ==> b[b.len() - 1] != '\r',
        b.len() == 0 && w.len() == 0 && a.len() > 0 ==> a[a.len() - 1] != '\r',
    ensures
        reply_of(a + w + b + seq!['\n'] + rest) is None,
        reply_of(Seq::<char>::empty()) is None,
{
    reveal_strlit("NONE");
    let l = a + w + b;
    assert(lacks(l, '\n')) by {
        assert forall|i: int| 0 <= i < l.len() implies #[trigger] l[i] != '\n' by {
            if i < a.len() {
                assert(l[i] == a[i]);
            } else if i < a.len() + w.len() {
                assert(l[i] == w[i - a.len()]);
            } else {
                assert(l[i] == b[i - a.len() - w.len()]);
            }
        }
    }
    if l.len() > 0 {
        if b.len() > 0 {
            assert(l[l.len() - 1] == b[b.len() - 1]);
        } else if w.len() > 0 {
            assert(l[l.len() - 1] == w[3]);
        } else {
            assert(l[l.len() - 1] == a[a.len() - 1]);
        }
    }
    lines_end_with_a_line_feed(l, rest);
    trimming_takes_the_white_space(a, w, b);
    assert(lines(l + seq!['\n'] + rest)[0] == l);
    if w.len() == 4 {
        assert(lowered(w) =~= lowered("NONE"@));
    }
    last_line_needs_no_line_feed(Seq::empty());
}

/// A running command's line counts without the line feeds and carriage returns at its end, and
/// with everything before them.
pub proof fn line_end_is_taken_off(l: Seq<char>, b: Seq<char>)
    requires
        l.len() > 0 ==> l[l.len() - 1] != '\n' && l[l.len() - 1] != '\r',
        forall|i: int| 0 <= i < b.len() ==> #[trigger] b[i] == '\n' || b[i] == '\r',
    ensures
        without_line_end(l + b) == l,
    decreases b.len(),
{
    if b.len() == 0 {
        assert(l + b =~= l);
    } else {
        assert((l + b).last() == b[b.len() - 1]);
        assert((l + b).drop_last() =~= l + b.drop_last());
        assert forall|i: int| 0 <= i < b.drop_last().len() implies #[trigger] b.drop_last()[i]
            == '\n' || b.drop_last()[i] == '\r' by {
            assert(b.drop_last()[i] == b[i]);
        }
        line_end_is_taken_off(l, b.drop_last());
    }
}

/// A `pass` line names the subtree and then the command, one word each.
pub proof fn directive_names_subtree_and_command(
    a: Seq<char>,
    o: Seq<u32>,
    b: Seq<char>,
    command: Seq<char>,
    rest: Seq<char>,
)
    requires
        is_blank(a),
        is_blank(b),
        b.len() > 0,
        o.len() > 0,
        is_plain_word(command),
        rest.len() > 0 ==> is_space(rest[0]),
    ensures
        pass_directive(a + oid_text(o) + b + command + rest) == Some((o, command)),
        pass_directive(a + oid_text(o) + b) is None,
{
    let w = oid_text(o);
    lemma_oid_text_is_a_word(o);
    assert(is_plain_word(w)) by {
        assert forall|i: int| 0 <= i < w.len() implies !is_space(#[trigger] w[i]) by {
            assert('.' <= w[i] <= '9');
        }
    }
    oid_text_reads_back(o);
    let tail = b + command + rest;
    assert(a + w + b + command + rest =~= a + w + tail);
    assert(tail[0] == b[0]);
    white_space_parts_words(a, w, tail);
    white_space_parts_words(b, command, rest);
    let ws = words(a + w + tail);
    assert(ws =~= seq![w] + (seq![command] + words(rest)));
    assert(ws[0] == w);
    assert(ws[1] == command);
    white_space_parts_words(a, w, b);
    white_space_parts_words(b, command, Seq::empty());
}

/// Whether a character has no meaning of its own in a command line.
pub open spec fn is_ordinary(c: char) -> bool {
    c != '\'' && c != '"' && c != '\\'
}

proof fn lemma_plain_step(w: Seq<char>, rest: Seq<char>, cur: Seq<char>, done: Seq<Seq<char>>)
    requires
        forall|i: int| 0 <= i < w.len() ==> !is_space(#[trigger] w[i]) && is_ordinary(w[i]),
    ensures
        shell_words(w + rest, Quoting::Plain, cur, done) == shell_words(
            rest,
            Quoting::Plain,
            cur + w,
            done,
        ),
    decreases w.len(),
{
    if w.len() == 0 {
        assert(w + rest =~= rest);
        assert(cur + w =~= cur);
    } else {
        let t = w.drop_first();
        let s = w + rest;
        assert(s[0] == w[0]);
        assert(s.skip(1) =~= t + rest);
        assert forall|i: int| 0 <= i < t.len() implies !is_space(#[trigger] t[i]) && is_ordinary(
            t[i],
        ) by {
            assert(t[i] == w[i + 1]);
        }
        lemma_plain_step(t, rest, cur.push(w[0]), done);
        assert(cur.push(w[0]) + t =~= cur + w);
    }
}

proof fn lemma_single_step(w: Seq<char>, rest: Seq<char>, cur: Seq<char>, done: Seq<Seq<char>>)
    requires
        lacks(w, '\''),
    ensures
        shell_words(w + rest, Quoting::Single, cur, done) == shell_words(
            rest,
            Quoting::Single,
            cur + w,
            done,
        ),
    decreases w.len(),
{
    if w.len() == 0 {
        assert(w + rest =~= rest);
        assert(cur + w =~= cur);
    } else {
        let t = w.drop_first();
        let s = w + rest;
        assert(s[0] == w[0]);
        assert(s.skip(1) =~= t + rest);
        assert forall|i: int| 0 <= i < t.len() implies #[trigger] t[i] != '\'' by {
            assert(t[i] == w[i + 1]);
        }
        lemma_single_step(t, rest, cur.push(w[0]), done);
        assert(cur.push(w[0]) + t =~= cur + w);
    }
}

proof fn lemma_double_step(w: Seq<char>, rest: Seq<char>, cur: Seq<char>, done: Seq<Seq<char>>)
    requires
        lacks(w, '"'),
        lacks(w, '\\'),
    ensures
        shell_words(w + rest, Quoting::Double, cur, done) == shell_words(
            rest,
            Quoting::Double,
            cur + w,
            done,
        ),
    decreases w.len(),
{
    if w.len() == 0 {
        assert(w + rest =~= rest);
        assert(cur + w =~= cur);
    } else {
        let t = w.drop_first();
        let s = w + rest;
        assert(s[0] == w[0]);
        assert(s.skip(1) =~= t + rest);
        assert forall|i: int| 0 <= i < t.len() implies #[trigger] t[i] != '"' by {
            assert(t[i] == w[i + 1]);
        }
        assert forall|i: int| 0 <= i < t.len() implies #[trigger] t[i] != '\\' by {
            assert(t[i] == w[i + 1]);
        }
        lemma_double_step(t, rest, cur.push(w[0]), done);
        assert(cur.push(w[0]) + t =~= cur + w);
    }
}

/// A command line of a program and one argument runs the program with that argument: as it is
/// where it is one plain word, and all of what stands between quotes, white space included. A
/// quote that is not closed leaves nothing to run.
#[verifier::rlimit(40)]
pub proof fn quotes_keep_an_argument_whole(p: Seq<char>, x: Seq<char>)
    requires
        p.len() > 0,
        x.len() > 0,
        forall|i: int| 0 <= i < p.len() ==> !is_space(#[trigger] p[i]) && is_ordinary(p[i]),
    ensures
        command_of(p) == Some((p, Seq::<Seq<char>>::empty())),
        (forall|i: int| 0 <= i < x.len() ==> !is_space(#[trigger] x[i]) && is_ordinary(x[i]))
            ==> command_of(p + seq![' '] + x) == Some((p, seq![x])),
        lacks(x, '\'') ==> command_of(p + seq![' ', '\''] + x + seq!['\'']) == Some((p, seq![x])),
        lacks(x, '\'') ==> command_of(p + seq![' ', '\''] + x) is None,
        lacks(x, '"') && lacks(x, '\\') ==> command_of(p + seq![' ', '"'] + x + seq!['"'])
            == Some((p, seq![x])),
        lacks(x, '"') && lacks(x, '\\') ==> command_of(p + seq![' ', '"'] + x) is None,
        command_of(Seq::<char>::empty()) is None,
{
    let e = Seq::<char>::empty();
    let z = Seq::<Seq<char>>::empty();
    lemma_plain_step(p, e, e, z);
    assert(p + e =~= p);
    assert(e + p =~= p);
    assert(z.push(p)[0] == p);
    assert(z.push(p).skip(1) =~= z);
    let d = z.push(p);
    assert(d.push(x).skip(1) =~= seq![x]);
    assert(e + x =~= x);
    if forall|i: int| 0 <= i < x.len() ==> !is_space(#[trigger] x[i]) && is_ordinary(x[i]) {
        let s = p + seq![' '] + x;
        let r = seq![' '] + x;
        assert(s =~= p + r);
        lemma_plain_step(p, r, e, z);
        assert(r.skip(1) =~= x);
        lemma_plain_step(x, e, e, d);
        assert(x + e =~= x);
        assert(shell_words(s, Quoting::Plain, e, z) == Some(d.push(x)));
    }
    if lacks(x, '\'') {
        let r = seq![' ', '\''] + x + seq!['\''];
        assert(p + seq![' ', '\''] + x + seq!['\''] =~= p + r);
        lemma_plain_step(p, r, e, z);
        let r1 = r.skip(1);
        assert(r[0] == ' ');
        assert(r1[0] == '\'');
        assert(r1.skip(1) =~= x + seq!['\'']);
        lemma_single_step(x, seq!['\''], e, d);
        assert(seq!['\''].skip(1) =~= e);
        assert(shell_words(p + r, Quoting::Plain, e, z) == shell_words(r1, Quoting::Plain, e, d));
        assert(shell_words(e, Quoting::Plain, x, d) == Some(d.push(x)));
        let q = seq![' ', '\''] + x;
        assert(p + seq![' ', '\''] + x =~= p + q);
        lemma_plain_step(p, q, e, z);
        let q1 = q.skip(1);
        assert(q[0] == ' ');
        assert(q1[0] == '\'');
        assert(q1.skip(1) =~= x);
        lemma_single_step(x, e, e, d);
        assert(x + e =~= x);
        assert(shell_words(p + q, Quoting::Plain, e, z) == shell_words(q1, Quoting::Plain, e, d));
    }
    if lacks(x, '"') && lacks(x, '\\') {
        let r = seq![' ', '"'] + x + seq!['"'];
        assert(p + seq![' ', '"'] + x + seq!['"'] =~= p + r);
        lemma_plain_step(p, r, e, z);
        let r1 = r.skip(1);
        assert(r[0] == ' ');
        assert(r1[0] == '"');
        assert(r1.skip(1) =~= x + seq!['"']);
        lemma_double_step(x, seq!['"'], e, d);
        assert(seq!['"'].skip(1) =~= e);
        assert(shell_words(p + r, Quoting::Plain, e, z) == shell_words(r1, Quoting::Plain, e, d));
        assert(shell_words(e, Quoting::Plain, x, d) == Some(d.push(x)));
        let q = seq![' ', '"'] + x;
        assert(p + seq![' ', '"'] + x =~= p + q);
        lemma_plain_step(p, q, e, z);
        let q1 = q.skip(1);
        assert(q[0] == ' ');
        assert(q1[0] == '"');
        assert(q1.skip(1) =~= x);
        lemma_double_step(x, e, e, d);
        assert(x + e =~= x);
        assert(shell_words(p + q, Quoting::Plain, e, z) == shell_words(q1, Quoting::Plain, e, d));
    }
}

/// A backslash takes the meaning off the character behind it.
pub proof fn backslash_keeps_a_character(p: Seq<char>, c: char)
    requires
        forall|i: int| 0 <= i < p.len() ==> !is_space(#[trigger] p[i]) && is_ordinary(p[i]),
    ensures
        command_of(p + seq!['\\', c]) == Some((p.push(c), Seq::<Seq<char>>::empty())),
{
    let e = Seq::<char>::empty();
    let z = Seq::<Seq<char>>::empty();
    let r = seq!['\\', c];
    lemma_plain_step(p, r, e, z);
    assert(e + p =~= p);
    assert(r.skip(2) =~= e);
    assert(shell_words(r, Quoting::Plain, p, z) == shell_words(e, Quoting::Plain, p.push(c), z));
    assert(z.push(p.push(c)).skip(1) =~= z);
}
/// Whether a type is written as `name`, in whatever case.
pub open spec fn is_called(t: Seq<char>, name: Seq<char>) -> bool {
    lowered(t) == lowered(name)
}
proof fn lemma_type_names()
    ensures
        lowered("integer"@).len() == 7 && lowered("integer"@)[0] == 'i',
        lowered("int"@).len() == 3 && lowered("int"@)[0] == 'i',
        lowered("integer32"@).len() == 9 && lowered("integer32"@)[0] == 'i',
        lowered("gauge"@).len() == 5 && lowered("gauge"@)[0] == 'g',
        lowered("gauge32"@).len() == 7 && lowered("gauge32"@)[0] == 'g',
        lowered("unsigned"@).len() == 8 && lowered("unsigned"@)[0] == 'u',
        lowered("uinteger"@).len() == 8 && lowered("uinteger"@)[0] == 'u',
        lowered("uint32"@).len() == 6 && lowered("uint32"@)[0] == 'u',
        lowered("counter"@).len() == 7 && lowered("counter"@)[0] == 'c',
        lowered("counter32"@).len() == 9 && lowered("counter32"@)[0] == 'c',
        lowered("counter64"@).len() == 9 && lowered("counter64"@)[0] == 'c',
        lowered("timeticks"@).len() == 9 && lowered("timeticks"@)[0] == 't',
        lowered("timetick"@).len() == 8 && lowered("timetick"@)[0] == 't',
        lowered("ipaddress"@).len() == 9 && lowered("ipaddress"@)[0] == 'i',
        lowered("ip"@).len() == 2 && lowered("ip"@)[0] == 'i',
        lowered("objectid"@).len() == 8 && lowered("objectid"@)[0] == 'o',
        lowered("oid"@).len() == 3 && lowered("oid"@)[0] == 'o',
        lowered("opaque"@).len() == 6 && lowered("opaque"@)[0] == 'o',
        lowered("counter32"@)[7] == '3',
        lowered("counter64"@)[7] == '6',
        lowered("ipaddress"@)[1] == 'p',
        lowered("integer32"@)[1] == 'n',
        lowered("unsigned"@)[1] == 'n',
        lowered("uinteger"@)[1] == 'i',
{
    reveal_strlit("integer");
    reveal_strlit("int");
    reveal_strlit("integer32");
    reveal_strlit("gauge");
    reveal_strlit("gauge32");
    reveal_strlit("unsigned");
    reveal_strlit("uinteger");
    reveal_strlit("uint32");
    reveal_strlit("counter");
    reveal_strlit("counter32");
    reveal_strlit("counter64");
    reveal_strlit("timeticks");
    reveal_strlit("timetick");
    reveal_strlit("ipaddress");
    reveal_strlit("ip");
    reveal_strlit("objectid");
    reveal_strlit("oid");
    reveal_strlit("opaque");
}

/// An integer is read with its sign, and is zero where it cannot be read.
pub proof fn integers_are_read(t: Seq<char>, n: nat, x: Seq<char>)
    requires
        is_tight(t),
        is_called(t, "integer"@)
            || is_called(t, "int"@)
            || is_called(t, "integer32"@),
    ensures
        n <= i64::MAX ==> pass_value(t, decimal(n)) == ValueView::Integer(n as i64),
        n <= i64::MAX
            ==> pass_value(t, seq!['-'] + decimal(n)) == ValueView::Integer((-(n as int)) as i64),
        signed_value(trim(x), i64::MIN as int, i64::MAX as int) is None ==> pass_value(t, x)
            == ValueView::Integer(0),
{
    lemma_type_names();
    lemma_trim_tight(t);
    lemma_decimal(n);
    let d = decimal(n);
    assert('0' <= d[0] <= '9' && '0' <= d[d.len() - 1] <= '9');
    lemma_trim_tight(d);
    let m = seq!['-'] + d;
    assert(m[m.len() - 1] == d[d.len() - 1]);
    lemma_trim_tight(m);
    minus_negates(n, i64::MIN as int, i64::MAX as int);
}

/// A gauge is read in full, and is zero where it cannot be read.
pub proof fn gauges_are_read(t: Seq<char>, n: nat, x: Seq<char>)
    requires
        is_tight(t),
        is_called(t, "gauge"@)
            || is_called(t, "gauge32"@)
            || is_called(t, "unsigned"@)
            || is_called(t, "uinteger"@)
            || is_called(t, "uint32"@),
    ensures
        n <= u32::MAX ==> pass_value(t, decimal(n)) == ValueView::Gauge32(n as u32),
        unsigned_value(trim(x), 10, u32::MAX as nat) is None ==> pass_value(t, x)
            == ValueView::Gauge32(0),
{
    lemma_type_names();
    lemma_trim_tight(t);
    lemma_decimal(n);
    let d = decimal(n);
    assert('0' <= d[0] <= '9' && '0' <= d[d.len() - 1] <= '9');
    lemma_trim_tight(d);
    let m = seq!['-'] + d;
    assert(m[m.len() - 1] == d[d.len() - 1]);
    lemma_trim_tight(m);
    minus_negates(n, i64::MIN as int, i64::MAX as int);
    only_digits_spell_numbers(n, u32::MAX as nat, d, 0);
}

/// A counter is read in full, and is zero where it cannot be read.
pub proof fn counters_are_read(t: Seq<char>, n: nat, x: Seq<char>)
    requires
        is_tight(t),
        is_called(t, "counter"@)
            || is_called(t, "counter32"@),
    ensures
        n <= u32::MAX ==> pass_value(t, decimal(n)) == ValueView::Counter32(n as u32),
        unsigned_value(trim(x), 10, u32::MAX as nat) is None ==> pass_value(t, x)
            == ValueView::Counter32(0),
{
    lemma_type_names();
    lemma_trim_tight(t);
    lemma_decimal(n);
    let d = decimal(n);
    assert('0' <= d[0] <= '9' && '0' <= d[d.len() - 1] <= '9');
    lemma_trim_tight(d);
    let m = seq!['-'] + d;
    assert(m[m.len() - 1] == d[d.len() - 1]);
    lemma_trim_tight(m);
    minus_negates(n, i64::MIN as int, i64::MAX as int);
    only_digits_spell_numbers(n, u32::MAX as nat, d, 0);
}

/// A 64-bit counter is read in full, and is zero where it cannot be read.
pub proof fn long_counters_are_read(t: Seq<char>, n: nat, x: Seq<char>)
    requires
        is_tight(t),
        is_called(t, "counter64"@),
    ensures
        n <= u64::MAX ==> pass_value(t, decimal(n)) == ValueView::Counter64(n as u64),
        unsigned_value(trim(x), 10, u64::MAX as nat) is None ==> pass_value(t, x)
            == ValueView::Counter64(0),
{
    lemma_type_names();
    lemma_trim_tight(t);
    lemma_decimal(n);
    let d = decimal(n);
    assert('0' <= d[0] <= '9' && '0' <= d[d.len() - 1] <= '9');
    lemma_trim_tight(d);
    let m = seq!['-'] + d;
    assert(m[m.len() - 1] == d[d.len() - 1]);
    lemma_trim_tight(m);
    minus_negates(n, i64::MIN as int, i64::MAX as int);
    only_digits_spell_numbers(n, u64::MAX as nat, d, 0);
}

/// Time ticks are read in full, and are zero where they cannot be read.
pub proof fn ticks_are_read(t: Seq<char>, n: nat, x: Seq<char>)
    requires
        is_tight(t),
        is_called(t, "timeticks"@)
            || is_called(t, "timetick"@),
    ensures
        n <= u32::MAX ==> pass_value(t, decimal(n)) == ValueView::TimeTicks(n as u32),
        unsigned_value(trim(x), 10, u32::MAX as nat) is None ==> pass_value(t, x)
            == ValueView::TimeTicks(0),
{
    lemma_type_names();
    lemma_trim_tight(t);
    lemma_decimal(n);
    let d = decimal(n);
    assert('0' <= d[0] <= '9' && '0' <= d[d.len() - 1] <= '9');
    lemma_trim_tight(d);
    let m = seq!['-'] + d;
    assert(m[m.len() - 1] == d[d.len() - 1]);
    lemma_trim_tight(m);
    minus_negates(n, i64::MIN as int, i64::MAX as int);
    only_digits_spell_numbers(n, u32::MAX as nat, d, 0);
}

/// An object identifier is read in full, and is 0.0 where it cannot be read.
pub proof fn object_identifiers_are_read(t: Seq<char>, o: Seq<u32>, x: Seq<char>)
    requires
        is_tight(t),
        is_called(t, "objectid"@)
            || is_called(t, "oid"@),
    ensures
        o.len() > 0 ==> pass_value(t, oid_text(o)) == ValueView::Oid(o),
        parse_oid(trim(x)) is None ==> pass_value(t, x) == ValueView::Oid(seq![0u32, 0]),
{
    lemma_type_names();
    lemma_trim_tight(t);
    if o.len() > 0 {
        lemma_oid_text_is_a_word(o);
        let w = oid_text(o);
        assert('.' <= w[0] <= '9' && '.' <= w[w.len() - 1] <= '9');
        lemma_trim_tight(w);
        oid_text_reads_back(o);
    }
}

/// An opaque value is the whole text.
pub proof fn opaque_values_are_read(t: Seq<char>, x: Seq<char>)
    requires
        is_tight(t),
        is_called(t, "opaque"@),
    ensures
        pass_value(t, x) == ValueView::Opaque(utf8(x)),
{
    lemma_type_names();
    lemma_trim_tight(t);
}

/// A value of any other type is the whole text as it stands.
pub proof fn other_types_are_text(t: Seq<char>, x: Seq<char>)
    requires
        is_tight(t),
        !is_called(t, "integer"@),
        !is_called(t, "int"@),
        !is_called(t, "integer32"@),
        !is_called(t, "gauge"@),
        !is_called(t, "gauge32"@),
        !is_called(t, "unsigned"@),
        !is_called(t, "uinteger"@),
        !is_called(t, "uint32"@),
        !is_called(t, "counter"@),
        !is_called(t, "counter32"@),
        !is_called(t, "counter64"@),
        !is_called(t, "timeticks"@),
        !is_called(t, "timetick"@),
        !is_called(t, "ipaddress"@),
        !is_called(t, "ip"@),
        !is_called(t, "objectid"@),
        !is_called(t, "oid"@),
        !is_called(t, "opaque"@),
    ensures
        pass_value(t, x) == ValueView::OctetString(utf8(x)),
{
    lemma_trim_tight(t);
}

} // verus!
