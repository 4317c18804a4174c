//! Configuration directives: a token followed by arguments.

use vstd::prelude::*;

use crate::text::chars_of;
use crate::text::is_space;
use crate::text::lines;
use crate::text::slice_of;
use crate::text::space;
use crate::text::split_lines;
use crate::text::string_of;
use crate::text::strings;
use crate::text::texts;
use crate::text::trim;
use crate::text::trim_end;
use crate::text::trim_start;
use crate::text::trimmed;

verus! {

/// One parsed configuration line.
#[derive(Debug)]
pub struct Directive {
    /// The first word of the line.
    pub token: String,
    /// The words after it, without quotes.
    pub args: Vec<String>,
    /// The text after the token as it stands.
    pub rest: String,
    /// The section that the line stands in.
    pub section: Option<String>,
    /// The file that the line comes from.
    pub source: Option<String>,
    /// The number of the line.
    pub line_no: usize,
}

/// The lower-case form of an ASCII letter; any other character as it is.
pub open spec fn lower(c: char) -> char {
    if 'A' <= c <= 'Z' {
        (c as u32 + 32) as char
    } else {
        c
    }
}

/// The text with its ASCII letters in lower case.
pub open spec fn lowered(s: Seq<char>) -> Seq<char> {
    s.map_values(|c: char| lower(c))
}

/// The lower-case form of an ASCII letter; any other character as it is.
pub fn to_lower(c: char) -> (r: char)
    ensures
        r == lower(c),
{
    if 'A' <= c && c <= 'Z' {
        (c as u8 + 32) as char
    } else {
        c
    }
}

/// Whether two texts are the same but for the case of ASCII letters.
pub fn same_word(a: &[char], b: &str) -> (r: bool)
    ensures
        r == (lowered(a@) == lowered(b@)),
{
    let q = chars_of(b);
    if a.len() != q.len() {
        assert(lowered(a@).len() != lowered(b@).len());
        return false;
    }
    let mut i: usize = 0;
    while i < a.len()
        invariant
            i <= a@.len() == q@.len(),
            q@ == b@,
            forall|k: int| 0 <= k < i ==> lower(a@[k]) == lower(q@[k]),
        decreases a@.len() - i,
    {
        if to_lower(a[i]) != to_lower(q[i]) {
            assert(lowered(a@)[i as int] != lowered(b@)[i as int]);
            return false;
        }
        i += 1;
    }
    assert(lowered(a@) =~= lowered(b@));
    true
}

/// Whether two strings are the same but for the case of ASCII letters.
pub fn same_string(a: &str, b: &str) -> (r: bool)
    ensures
        r == (lowered(a@) == lowered(b@)),
{
    let x = chars_of(a);
    same_word(x.as_slice(), b)
}

impl Directive {
    /// Whether this is the directive `token`, whatever the case of its letters.
    pub open spec fn named(self, token: Seq<char>) -> bool {
        lowered(self.token@) == lowered(token)
    }

    /// Whether this is the directive `token`, whatever the case of its letters.
    pub fn is(&self, token: &str) -> (r: bool)
        ensures
            r == self.named(token@),
    {
        same_string(self.token.as_str(), token)
    }

    /// The argument number `i`, from zero.
    pub fn arg(&self, i: usize) -> (r: Option<&String>)
        ensures
            r is Some <==> i < self.args@.len(),
            r matches Some(s) ==> *s == self.args@[i as int],
    {
        if i < self.args.len() {
            Some(&self.args[i])
        } else {
            None
        }
    }
}

/// The mathematical content of a [`Directive`].
#[verifier::ext_equal]
pub struct DirectiveView {
    pub token: Seq<char>,
    pub args: Seq<Seq<char>>,
    pub rest: Seq<char>,
    pub section: Option<Seq<char>>,
    pub source: Option<Seq<char>>,
    pub line_no: nat,
}

/// The content of an optional text.
pub open spec fn opt_text(s: Option<String>) -> Option<Seq<char>> {
    match s {
        Some(t) => Some(t@),
        None => None,
    }
}

impl View for Directive {
    type V = DirectiveView;

    open spec fn view(&self) -> DirectiveView {
        DirectiveView {
            token: self.token@,
            args: strings(self.args@),
            rest: self.rest@,
            section: opt_text(self.section),
            source: opt_text(self.source),
            line_no: self.line_no as nat,
        }
    }
}

/// The contents of a list of directives.
pub open spec fn directives(v: Seq<Directive>) -> Seq<DirectiveView> {
    v.map_values(|d: Directive| d@)
}

/// The text before the quote `q`, in which a backslash makes the next character stand for
/// itself, and what follows the quote. Without a quote it is all of the text.
pub open spec fn quoted(s: Seq<char>, q: char) -> (Seq<char>, Seq<char>)
    decreases s.len(),
{
    if s.len() == 0 {
        (seq![], seq![])
    } else if s[0] == q {
        (seq![], s.drop_first())
    } else if s[0] == '\\' && s.len() > 1 {
        let r = quoted(s.skip(2), q);
        (seq![s[1]] + r.0, r.1)
    } else {
        let r = quoted(s.drop_first(), q);
        (seq![s[0]] + r.0, r.1)
    }
}

/// The text before the next whitespace, in which a backslash makes the next character stand
/// for itself, and what follows.
pub open spec fn bare(s: Seq<char>) -> (Seq<char>, Seq<char>)
    decreases s.len(),
{
    if s.len() == 0 || is_space(s[0]) {
        (seq![], s)
    } else if s[0] == '\\' && s.len() > 1 {
        let r = bare(s.skip(2));
        (seq![s[1]] + r.0, r.1)
    } else {
        let r = bare(s.drop_first());
        (seq![s[0]] + r.0, r.1)
    }
}

/// The word at the front of `s`, in quotes or bare, and what follows.
pub open spec fn word_at(s: Seq<char>) -> (Seq<char>, Seq<char>) {
    if s.len() > 0 && (s[0] == '"' || s[0] == '\'') {
        quoted(s.drop_first(), s[0])
    } else {
        bare(s)
    }
}

proof fn lemma_quoted_rest(s: Seq<char>, q: char)
    ensures
        quoted(s, q).1.len() <= s.len(),
        exists|i: int| 0 <= i <= s.len() && quoted(s, q).1 == #[trigger] s.skip(i),
    decreases s.len(),
{
    if s.len() == 0 {
        assert(s.skip(0) =~= seq![]);
    } else if s[0] == q {
        assert(s.skip(1) =~= s.drop_first());
    } else if s[0] == '\\' && s.len() > 1 {
        lemma_quoted_rest(s.skip(2), q);
        let i = choose|i: int| 0 <= i <= s.skip(2).len() && quoted(s.skip(2), q).1
            == #[trigger] s.skip(2).skip(i);
        assert(s.skip(2).skip(i) =~= s.skip(i + 2));
    } else {
        lemma_quoted_rest(s.drop_first(), q);
        let i = choose|i: int| 0 <= i <= s.drop_first().len() && quoted(s.drop_first(), q).1
            == #[trigger] s.drop_first().skip(i);
        assert(s.drop_first().skip(i) =~= s.skip(i + 1));
    }
}

proof fn lemma_bare_rest(s: Seq<char>)
    ensures
        bare(s).1.len() <= s.len(),
        s.len() > 0 && !is_space(s[0]) ==> bare(s).1.len() < s.len(),
    decreases s.len(),
{
    if s.len() == 0 || is_space(s[0]) {
    } else if s[0] == '\\' && s.len() > 1 {
        lemma_bare_rest(s.skip(2));
    } else {
        lemma_bare_rest(s.drop_first());
    }
}

/// A word takes at least one character.
pub proof fn lemma_word_shrinks(s: Seq<char>)
    requires
        s.len() > 0,
        !is_space(s[0]),
    ensures
        word_at(s).1.len() < s.len(),
{
    lemma_quoted_rest(s.drop_first(), s[0]);
    lemma_bare_rest(s);
}

/// The words of a line, separated by whitespace.
pub open spec fn line_words(s: Seq<char>) -> Seq<Seq<char>>
    decreases s.len(),
{
    if s.len() == 0 {
        seq![]
    } else if is_space(s[0]) {
        line_words(s.drop_first())
    } else {
        proof {
            lemma_word_shrinks(s);
        }
        seq![word_at(s).0] + line_words(word_at(s).1)
    }
}

fn read_quoted(s: &[char], from: usize, q: char) -> (r: (Vec<char>, usize))
    requires
        from <= s@.len(),
    ensures
        from <= r.1 <= s@.len(),
        quoted(s@.skip(from as int), q) == (r.0@, s@.skip(r.1 as int)),
{
    let mut word: Vec<char> = Vec::new();
    let mut i: usize = from;
    let ghost goal = quoted(s@.skip(from as int), q);
    assert(word@ + goal.0 =~= goal.0);
    while i < s.len()
        invariant
            from <= i <= s@.len(),
            goal == quoted(s@.skip(from as int), q),
            goal == (word@ + quoted(s@.skip(i as int), q).0, quoted(s@.skip(i as int), q).1),
        decreases s@.len() - i,
    {
        let ghost rest = s@.skip(i as int);
        let ghost before = word@;
        if s[i] == q {
            assert(rest.drop_first() =~= s@.skip(i + 1));
            assert(word@ + Seq::<char>::empty() =~= word@);
            return (word, i + 1);
        }
        if s[i] == '\\' && i + 1 < s.len() {
            word.push(s[i + 1]);
            assert(rest.skip(2) =~= s@.skip(i + 2));
            assert(word@ + quoted(rest.skip(2), q).0 =~= before + (seq![rest[1]] + quoted(
                rest.skip(2),
                q,
            ).0));
            i += 2;
        } else {
            word.push(s[i]);
            assert(rest.drop_first() =~= s@.skip(i + 1));
            assert(word@ + quoted(rest.drop_first(), q).0 =~= before + (seq![rest[0]] + quoted(
                rest.drop_first(),
                q,
            ).0));
            i += 1;
        }
    }
    assert(s@.skip(i as int) =~= seq![]);
    assert(word@ + Seq::<char>::empty() =~= word@);
    (word, i)
}

fn read_bare(s: &[char], from: usize) -> (r: (Vec<char>, usize))
    requires
        from <= s@.len(),
    ensures
        from <= r.1 <= s@.len(),
        bare(s@.skip(from as int)) == (r.0@, s@.skip(r.1 as int)),
{
    let mut word: Vec<char> = Vec::new();
    let mut i: usize = from;
    let ghost goal = bare(s@.skip(from as int));
    assert(word@ + goal.0 =~= goal.0);
    while i < s.len() && !space(s[i])
        invariant
            from <= i <= s@.len(),
            goal == bare(s@.skip(from as int)),
            goal == (word@ + bare(s@.skip(i as int)).0, bare(s@.skip(i as int)).1),
        decreases s@.len() - i,
    {
        let ghost rest = s@.skip(i as int);
        let ghost before = word@;
        if s[i] == '\\' && i + 1 < s.len() {
            word.push(s[i + 1]);
            assert(rest.skip(2) =~= s@.skip(i + 2));
            assert(word@ + bare(rest.skip(2)).0 =~= before + (seq![rest[1]] + bare(
                rest.skip(2),
            ).0));
            i += 2;
        } else {
            word.push(s[i]);
            assert(rest.drop_first() =~= s@.skip(i + 1));
            assert(word@ + bare(rest.drop_first()).0 =~= before + (seq![rest[0]] + bare(
                rest.drop_first(),
            ).0));
            i += 1;
        }
    }
    assert(word@ + Seq::<char>::empty() =~= word@);
    (word, i)
}

fn read_word(s: &[char], from: usize) -> (r: (Vec<char>, usize))
    requires
        from < s@.len(),
        !is_space(s@[from as int]),
    ensures
        from < r.1 <= s@.len(),
        word_at(s@.skip(from as int)) == (r.0@, s@.skip(r.1 as int)),
{
    proof {
        lemma_word_shrinks(s@.skip(from as int));
        assert(s@.skip(from as int).drop_first() =~= s@.skip(from + 1));
    }
    if s[from] == '"' || s[from] == '\'' {
        read_quoted(s, from + 1, s[from])
    } else {
        read_bare(s, from)
    }
}

/// The words of a line: separated by whitespace, quotes keeping whitespace in a word.
pub fn split_line(s: &[char]) -> (r: Vec<String>)
    ensures
        strings(r@) == line_words(s@),
{
    let mut out: Vec<String> = Vec::new();
    let mut i: usize = 0;
    assert(s@.skip(0) =~= s@);
    assert(strings(out@) + line_words(s@) =~= line_words(s@));
    while i < s.len()
        invariant
            i <= s@.len(),
            strings(out@) + line_words(s@.skip(i as int)) == line_words(s@),
        decreases s@.len() - i,
    {
        let ghost rest = s@.skip(i as int);
        if space(s[i]) {
            assert(rest.drop_first() =~= s@.skip(i + 1));
            i += 1;
        } else {
            let (word, next) = read_word(s, i);
            let ghost before = strings(out@);
            let w = string_of(word.as_slice());
            out.push(w);
            proof {
                assert(strings(out@) =~= before.push(word@));
                let tail = line_words(s@.skip(next as int));
                assert(before + (seq![word@] + tail) =~= strings(out@) + tail);
            }
            i = next;
        }
    }
    assert(s@.skip(i as int) =~= seq![]);
    assert(strings(out@) + Seq::<Seq<char>>::empty() =~= strings(out@));
    out
}

/// The words of a line.
pub fn parse_words(line: &str) -> (r: Vec<String>)
    ensures
        strings(r@) == line_words(line@),
{
    let s = chars_of(line);
    split_line(s.as_slice())
}

/// What one trimmed line of a configuration file is.
pub enum LineKind {
    Blank,
    Section(Seq<char>),
    Words,
}

/// Classify a trimmed line: empty lines and lines from `#` on say nothing, and brackets name a
/// section.
pub open spec fn line_kind(t: Seq<char>) -> LineKind {
    if t.len() == 0 || t[0] == '#' {
        LineKind::Blank
    } else if t[0] == '[' && t.last() == ']' {
        LineKind::Section(
            if t.len() >= 2 {
                trim(t.subrange(1, t.len() - 1))
            } else {
                seq![]
            },
        )
    } else {
        LineKind::Words
    }
}

/// The directive that a trimmed line is.
pub open spec fn directive_of(t: Seq<char>, section: Option<Seq<char>>, line_no: nat) -> DirectiveView {
    DirectiveView {
        token: word_at(t).0,
        args: line_words(word_at(t).1),
        rest: trim(word_at(t).1),
        section,
        source: None,
        line_no,
    }
}

/// The directives of the lines, of which the first has the number `n`.
pub open spec fn parse_lines(
    ls: Seq<Seq<char>>,
    section: Option<Seq<char>>,
    n: nat,
) -> Seq<DirectiveView>
    decreases ls.len(),
{
    if ls.len() == 0 {
        seq![]
    } else {
        let t = trim(ls[0]);
        match line_kind(t) {
            LineKind::Blank => parse_lines(ls.drop_first(), section, n + 1),
            LineKind::Section(name) => parse_lines(ls.drop_first(), Some(name), n + 1),
            LineKind::Words => seq![directive_of(t, section, n)] + parse_lines(
                ls.drop_first(),
                section,
                n + 1,
            ),
        }
    }
}

/// The directives of a configuration text.
pub open spec fn parse_text(s: Seq<char>) -> Seq<DirectiveView> {
    parse_lines(lines(s), None, 1)
}

proof fn lemma_trim_end_first(s: Seq<char>)
    ensures
        s.len() > 0 && !is_space(s[0]) ==> trim_end(s).len() > 0
            && trim_end(s)[0] == s[0],
    decreases s.len(),
{
    if s.len() > 0 && is_space(s.last()) {
        lemma_trim_end_first(s.drop_last());
    }
}

proof fn lemma_trim_start_first(s: Seq<char>)
    ensures
        trim_start(s).len() > 0 ==> !is_space(trim_start(s)[0]),
    decreases s.len(),
{
    if s.len() > 0 && is_space(s[0]) {
        lemma_trim_start_first(s.drop_first());
    }
}

/// A trimmed text does not begin with whitespace.
pub proof fn lemma_trim_first(s: Seq<char>)
    ensures
        trim(s).len() > 0 ==> !is_space(trim(s)[0]),
{
    lemma_trim_start_first(s);
    let t = trim_start(s);
    if t.len() > 0 {
        lemma_trim_end_first(t);
    }
}

/// Parse a configuration text into directives.
pub fn parse_str(content: &str) -> (r: Vec<Directive>)
    ensures
        directives(r@) == parse_text(content@),
{
    let all = chars_of(content);
    let ls = split_lines(all.as_slice());
    let ghost lv = texts(ls@);
    let mut out: Vec<Directive> = Vec::new();
    let mut section: Option<String> = None;
    let mut i: usize = 0;
    assert(lv.skip(0) =~= lv);
    assert(directives(out@) + parse_lines(lv, None, 1) =~= parse_lines(lv, None, 1));
    while i < ls.len()
        invariant
            i <= ls@.len(),
            lv == texts(ls@),
            lv == lines(content@),
            directives(out@) + parse_lines(lv.skip(i as int), opt_text(section), (i + 1) as nat)
                == parse_text(content@),
        decreases ls@.len() - i,
    {
        let ghost rest = lv.skip(i as int);
        assert(rest[0] == ls@[i as int]@);
        assert(rest.drop_first() =~= lv.skip(i + 1));
        let t = trimmed(ls[i].as_slice());
        proof {
            lemma_trim_first(ls@[i as int]@);
        }
        if t.len() == 0 || t[0] == '#' {
        } else if t[0] == '[' && t[t.len() - 1] == ']' {
            let name = if t.len() >= 2 {
                trimmed(slice_of(t.as_slice(), 1, t.len() - 1).as_slice())
            } else {
                Vec::new()
            };
            section = Some(string_of(name.as_slice()));
        } else {
            let (word, next) = read_word(t.as_slice(), 0);
            assert(t@.skip(0) =~= t@);
            let tail = slice_of(t.as_slice(), next, t.len());
            assert(tail@ =~= t@.skip(next as int));
            let sec = match &section {
                Some(x) => Some(x.clone()),
                None => None,
            };
            let d = Directive {
                token: string_of(word.as_slice()),
                args: split_line(tail.as_slice()),
                rest: string_of(trimmed(tail.as_slice()).as_slice()),
                section: sec,
                source: None,
                line_no: i + 1,
            };
            let ghost before = directives(out@);
            let ghost dv = d@;
            out.push(d);
            proof {
                assert(dv =~= directive_of(t@, opt_text(section), (i + 1) as nat));
                assert(directives(out@) =~= before.push(dv));
                let more = parse_lines(lv.skip(i + 1), opt_text(section), (i + 2) as nat);
                assert(before + (seq![dv] + more) =~= directives(out@) + more);
            }
        }
        i += 1;
    }
    assert(lv.skip(i as int) =~= seq![]);
    assert(directives(out@) + Seq::<DirectiveView>::empty() =~= directives(out@));
    out
}

} // verus!
