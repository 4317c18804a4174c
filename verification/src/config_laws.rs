//! What configuration lines say, by how they are written.

use vstd::prelude::*;

use crate::config::bare;
use crate::config::directive_of;
use crate::config::line_words;
use crate::config::lower;
use crate::config::lowered;
use crate::config::parse_lines;
use crate::config::parse_text;
use crate::config::quoted;
use crate::config::word_at;
use crate::config::Directive;
use crate::config::DirectiveView;
use crate::oid::oid_text;
use crate::oid::oid_text_reads_back;
use crate::oid::parse_oid;
use crate::pdu::Version;
use crate::proxy::proxies_of;
use crate::proxy::proxy_of;
use crate::proxy::ProxyView;
use crate::text::is_space;
use crate::text::lines;
use crate::text::strings;
use crate::text::trim;
use crate::text_laws::is_blank;
use crate::text_laws::is_tight;
use crate::text_laws::lacks;
use crate::text_laws::last_line_needs_no_line_feed;
use crate::text_laws::lines_end_with_a_line_feed;
use crate::text_laws::trimming_takes_the_white_space;
use crate::value::utf8;

verus! {

/// Words are compared without regard to the case of ASCII letters, and to nothing else.
pub proof fn case_of_letters_does_not_count(c: char, d: char)
    ensures
        lower(c) == lower(d) <==> (c == d || ('A' <= c <= 'Z' && d as u32 == c as u32 + 32) || (
        'A' <= d <= 'Z' && c as u32 == d as u32 + 32)),
        'A' <= c <= 'Z' ==> 'a' <= lower(c) <= 'z' && lower(c) as u32 == c as u32 + 32,
{
}

proof fn lemma_quoted(x: Seq<char>, q: char, rest: Seq<char>)
    requires
        lacks(x, q),
        lacks(x, '\\'),
        q != '\\',
    ensures
        quoted(x + seq![q] + rest, q) == (x, rest),
        quoted(x, q) == (x, Seq::<char>::empty()),
    decreases x.len(),
{
    let s = x + seq![q] + rest;
    let e = Seq::<char>::empty();
    if x.len() == 0 {
        assert(s.drop_first() =~= rest);
        assert(x =~= e);
    } else {
        let t = x.drop_first();
        assert(s[0] == x[0]);
        assert forall|i: int| 0 <= i < t.len() implies #[trigger] t[i] != q by {
            assert(t[i] == x[i + 1]);
        }
        assert forall|i: int| 0 <= i < t.len() implies #[trigger] t[i] != '\\' by {
            assert(t[i] == x[i + 1]);
        }
        assert(s.drop_first() =~= t + seq![q] + rest);
        lemma_quoted(t, q, rest);
        assert(seq![x[0]] + t =~= x);
    }
}

/// A word in single or double quotes is all that stands between them, and what is behind the
/// closing quote is the rest.
pub proof fn quoted_words_are_whole(x: Seq<char>, rest: Seq<char>)
    requires
        lacks(x, '\\'),
    ensures
        lacks(x, '"') ==> word_at(seq!['"'] + x + seq!['"'] + rest) == (x, rest),
        lacks(x, '\'') ==> word_at(seq!['\''] + x + seq!['\''] + rest) == (x, rest),
        lacks(x, '"') ==> word_at(seq!['"'] + x) == (x, Seq::<char>::empty()),
{
    if lacks(x, '"') {
        let s = seq!['"'] + x + seq!['"'] + rest;
        assert(s.drop_first() =~= x + seq!['"'] + rest);
        lemma_quoted(x, '"', rest);
        let t = seq!['"'] + x;
        assert(t.drop_first() =~= x);
    }
    if lacks(x, '\'') {
        let s = seq!['\''] + x + seq!['\''] + rest;
        assert(s.drop_first() =~= x + seq!['\''] + rest);
        lemma_quoted(x, '\'', rest);
    }
}

/// Whether a word stands for itself: not empty, without white space, quotes at its front and
/// backslashes.
pub open spec fn is_bare(w: Seq<char>) -> bool {
    &&& w.len() > 0
    &&& w[0] != '"' && w[0] != '\''
    &&& forall|i: int| 0 <= i < w.len() ==> !is_space(#[trigger] w[i]) && w[i] != '\\'
}

proof fn lemma_bare(w: Seq<char>, rest: Seq<char>)
    requires
        forall|i: int| 0 <= i < w.len() ==> !is_space(#[trigger] w[i]) && w[i] != '\\',
        rest.len() > 0 ==> is_space(rest[0]),
    ensures
        bare(w + rest) == (w, rest),
    decreases w.len(),
{
    let s = w + rest;
    if w.len() == 0 {
        assert(s =~= rest);
        assert(w =~= Seq::<char>::empty());
    } else {
        let t = w.drop_first();
        assert(s[0] == w[0]);
        assert forall|i: int| 0 <= i < t.len() implies !is_space(#[trigger] t[i]) && t[i]
            != '\\' by {
            assert(t[i] == w[i + 1]);
        }
        assert(s.drop_first() =~= t + rest);
        lemma_bare(t, rest);
        assert(seq![w[0]] + t =~= w);
    }
}

proof fn lemma_blank_before_words(a: Seq<char>, s: Seq<char>)
    requires
        is_blank(a),
    ensures
        line_words(a + s) == line_words(s),
    decreases a.len(),
{
    if a.len() == 0 {
        assert(a + s =~= s);
    } else {
        let t = a.drop_first();
        assert((a + s)[0] == a[0]);
        assert((a + s).drop_first() =~= t + s);
        assert forall|i: int| 0 <= i < t.len() implies is_space(#[trigger] t[i]) by {
            assert(t[i] == a[i + 1]);
        }
        lemma_blank_before_words(t, s);
    }
}

/// The arguments of a line are its words in order, with any white space between them, and a quoted
/// one with the white space in it.
pub proof fn arguments_are_the_words(a: Seq<char>, w: Seq<char>, x: Seq<char>, rest: Seq<char>)
    requires
        is_blank(a),
        is_bare(w),
        rest.len() > 0 ==> is_space(rest[0]),
        lacks(x, '"'),
        lacks(x, '\\'),
    ensures
        line_words(a + w + rest) == seq![w] + line_words(rest),
        line_words(a + seq!['"'] + x + seq!['"'] + rest) == seq![x] + line_words(rest),
        line_words(a) == Seq::<Seq<char>>::empty(),
{
    let e = Seq::<char>::empty();
    let s = w + rest;
    assert(a + w + rest =~= a + s);
    lemma_blank_before_words(a, s);
    assert(s[0] == w[0]);
    lemma_bare(w, rest);
    let q = seq!['"'] + x + seq!['"'] + rest;
    assert(a + seq!['"'] + x + seq!['"'] + rest =~= a + q);
    lemma_blank_before_words(a, q);
    quoted_words_are_whole(x, rest);
    lemma_blank_before_words(a, e);
    assert(a + e =~= a);
}

/// Empty lines and comments say nothing, but count as lines.
pub proof fn comments_say_nothing(
    a: Seq<char>,
    rest: Seq<char>,
    ls: Seq<Seq<char>>,
    section: Option<Seq<char>>,
    n: nat,
)
    requires
        is_blank(a),
    ensures
        parse_lines(seq![a] + ls, section, n) == parse_lines(ls, section, n + 1),
        rest.len() > 0 ==> !is_space(rest[rest.len() - 1]) ==> parse_lines(
            seq![a + seq!['#'] + rest] + ls,
            section,
            n,
        ) == parse_lines(ls, section, n + 1),
{
    let e = Seq::<char>::empty();
    trimming_takes_the_white_space(a, e, e);
    assert(a + e + e =~= a);
    let l = seq![a] + ls;
    assert(l.drop_first() =~= ls);
    assert(l[0] == a);
    if rest.len() > 0 && !is_space(rest[rest.len() - 1]) {
        let c = seq!['#'] + rest;
        let d = a + seq!['#'] + rest;
        assert(d =~= a + c + e);
        trimming_takes_the_white_space(a, c, e);
        let m = seq![d] + ls;
        assert(m.drop_first() =~= ls);
        assert(m[0] == d);
    }
}

/// A name in brackets is the section of the lines behind it.
pub proof fn brackets_begin_a_section(
    a: Seq<char>,
    name: Seq<char>,
    b: Seq<char>,
    ls: Seq<Seq<char>>,
    section: Option<Seq<char>>,
    n: nat,
)
    requires
        is_blank(a),
        is_blank(b),
        is_tight(name),
    ensures
        parse_lines(seq![a + seq!['['] + name + seq![']'] + b] + ls, section, n) == parse_lines(
            ls,
            Some(name),
            n + 1,
        ),
{
    let e = Seq::<char>::empty();
    let t = seq!['['] + name + seq![']'];
    let l = a + seq!['['] + name + seq![']'] + b;
    assert(l =~= a + t + b);
    trimming_takes_the_white_space(a, t, b);
    assert(t.subrange(1, t.len() - 1) =~= name);
    trimming_takes_the_white_space(e, name, e);
    assert(e + name + e =~= name);
    assert(t.last() == ']');
    let all = seq![l] + ls;
    assert(all.drop_first() =~= ls);
    assert(all[0] == l);
}

/// Any other line is a directive: its first word is the token, the words behind it are the
/// arguments, and it knows its section and its number.
pub proof fn other_lines_are_directives(
    a: Seq<char>,
    token: Seq<char>,
    rest: Seq<char>,
    ls: Seq<Seq<char>>,
    section: Option<Seq<char>>,
    n: nat,
)
    requires
        is_blank(a),
        is_bare(token),
        token[0] != '#' && token[0] != '[',
        rest.len() > 0 ==> is_space(rest[0]) && !is_space(rest[rest.len() - 1]),
    ensures
        ({
            let r = parse_lines(seq![a + token + rest] + ls, section, n);
            &&& r.len() == 1 + parse_lines(ls, section, n + 1).len()
            &&& r.skip(1) == parse_lines(ls, section, n + 1)
            &&& r[0].token == token
            &&& r[0].args == line_words(rest)
            &&& r[0].rest == trim(rest)
            &&& r[0].section == section
            &&& r[0].source is None
            &&& r[0].line_no == n
        }),
{
    let e = Seq::<char>::empty();
    let t = token + rest;
    let l = a + token + rest;
    assert(l =~= a + t + e);
    assert(t[0] == token[0]);
    assert(t[t.len() - 1] == if rest.len() > 0 {
        rest[rest.len() - 1]
    } else {
        token[token.len() - 1]
    });
    trimming_takes_the_white_space(a, t, e);
    lemma_bare(token, rest);
    let all = seq![l] + ls;
    assert(all.drop_first() =~= ls);
    assert(all[0] == l);
    let tail = parse_lines(ls, section, n + 1);
    let r = seq![directive_of(t, section, n)] + tail;
    assert(parse_lines(all, section, n) == r);
    assert(r.skip(1) =~= tail);
}

/// A text is read line by line from number one, in no section at first.
pub proof fn texts_are_read_by_lines(l: Seq<char>, rest: Seq<char>)
    requires
        lacks(l, '\n'),
        l.len() > 0 ==> l[l.len() - 1] != '\r',
    ensures
        parse_text(l + seq!['\n'] + rest) == parse_lines(seq![l] + lines(rest), None, 1),
        parse_text(Seq::empty()) == Seq::<DirectiveView>::empty(),
{
    lines_end_with_a_line_feed(l, rest);
    last_line_needs_no_line_feed(Seq::empty());
}

/// A `proxy` line names the community, the target and the subtree, which is the internet subtree
/// where the line does not say or cannot be understood. The target is asked with version 2c.
pub proof fn proxy_lines_name_the_target(community: Seq<char>, host: Seq<char>, o: Seq<u32>)
    requires
        community != "-Cn"@,
        o.len() > 0,
    ensures
        proxy_of(seq![community, host, oid_text(o)]) == Some(
            ProxyView {
                root: o,
                target_addr: host,
                community: utf8(community),
                version: Version::V2c,
                context: None,
                snmpv3: None,
            },
        ),
        proxy_of(seq![community, host]) == Some(
            ProxyView {
                root: seq![1u32, 3, 6, 1],
                target_addr: host,
                community: utf8(community),
                version: Version::V2c,
                context: None,
                snmpv3: None,
            },
        ),
        parse_oid(host) is None ==> proxy_of(seq![community, host, host]) == proxy_of(
            seq![community, host],
        ),
        proxy_of(seq![community]) is None,
        proxy_of(seq![]) is None,
{
    oid_text_reads_back(o);
}

/// `-Cn` before the community names the context, and changes nothing else.
pub proof fn proxy_context_stands_first(
    context: Seq<char>,
    community: Seq<char>,
    host: Seq<char>,
    rest: Seq<Seq<char>>,
)
    requires
        community != "-Cn"@,
    ensures
        ({
            let plain = proxy_of(seq![community, host] + rest);
            let named = proxy_of(seq!["-Cn"@, context, community, host] + rest);
            &&& plain is Some && named is Some
            &&& (plain->0).context is None
            &&& named->0 == (ProxyView { context: Some(context), ..plain->0 })
        }),
{
    let a = seq![community, host] + rest;
    let b = seq!["-Cn"@, context, community, host] + rest;
    assert(a[0] == community && a[1] == host);
    assert(b[0] == "-Cn"@ && b[1] == context && b[2] == community && b[3] == host);
    assert(a.skip(2) =~= b.skip(4));
    if rest.len() > 0 {
        assert(a[2] == rest[0]);
        assert(b[4] == rest[0]);
    }
}

/// Every `proxy` line that names a target makes a forwarder, in order, and no other line does.
pub proof fn proxy_lines_make_forwarders(ds: Seq<Directive>, d: Directive)
    ensures
        ({
            let p = proxy_of(strings(d.args@));
            &&& lowered(d.token@) == lowered("proxy"@) && p is Some ==> proxies_of(ds.push(d))
                == proxies_of(ds).push(p->0)
            &&& lowered(d.token@) != lowered("proxy"@) || p is None ==> proxies_of(ds.push(d))
                == proxies_of(ds)
            &&& proxies_of(Seq::empty()) == Seq::<ProxyView>::empty()
        }),
{
    assert(ds.push(d).drop_last() =~= ds);
}

} // verus!
