//! How values are told apart, stored and replaced, and what becomes of a table's rows.

use vstd::prelude::*;

use crate::config::DirectiveView;
use crate::inet::ipv4_text;
use crate::oid::oid_text;
use crate::pdu::ErrorStatus;
use crate::persist::args_text;
use crate::persist::boots_after;
use crate::persist::boots_path;
use crate::persist::boots_text;
use crate::persist::bumped;
use crate::persist::is_printable;
use crate::persist::is_special;
use crate::persist::line_text;
use crate::persist::lines_text;
use crate::persist::pair_value;
use crate::persist::put_item;
use crate::persist::quote;
use crate::persist::scalar_after;
use crate::persist::value_pair;
use crate::persist::without_blanks;
use crate::persist::Persistable;
use crate::row::outcome;
use crate::row::RowStatus;
use crate::scalar::compatible;
use crate::text::decimal;
use crate::text::decimal_reads_back;
use crate::text::hex_text;
use crate::text::is_space;
use crate::text::signed_decimal;
use crate::text_laws::lacks;
use crate::value::utf8;
use crate::value::ValueView;

verus! {

/// Whether a value is a number of one kind or another.
pub open spec fn is_number(v: ValueView) -> bool {
    v is Integer || v is Counter32 || v is Gauge32 || v is TimeTicks || v is Counter64
}

/// Whether a value is made of octets or arcs.
pub open spec fn is_octets(v: ValueView) -> bool {
    v is OctetString || v is Oid || v is IpAddress || v is Opaque
}

/// A number may be replaced by any number and octets by any octets; nothing else may be replaced
/// or replace anything.
pub proof fn numbers_replace_numbers(old_value: ValueView, new_value: ValueView)
    ensures
        compatible(old_value, new_value) <==> (is_number(old_value) && is_number(new_value)) || (
        is_octets(old_value) && is_octets(new_value)),
{
}

/// The numbers of the row states and of the requests that make and remove rows.
pub proof fn row_states_have_numbers()
    ensures
        RowStatus::of_number(1) == Some(RowStatus::Active),
        RowStatus::of_number(2) == Some(RowStatus::NotInService),
        RowStatus::of_number(3) == Some(RowStatus::NotReady),
        RowStatus::of_number(4) == Some(RowStatus::CreateAndGo),
        RowStatus::of_number(5) == Some(RowStatus::CreateAndWait),
        RowStatus::of_number(6) == Some(RowStatus::Destroy),
        RowStatus::Active.name() == "active"@,
        RowStatus::NotInService.name() == "notInService"@,
        RowStatus::NotReady.name() == "notReady"@,
        RowStatus::CreateAndGo.name() == "createAndGo"@,
        RowStatus::CreateAndWait.name() == "createAndWait"@,
        RowStatus::Destroy.name() == "destroy"@,
{
}

/// Only a row that is not there can be created. Creating it to use it at once takes all required
/// columns; else it waits, ready or not.
pub proof fn absent_rows_are_created(satisfied: bool, s: RowStatus)
    ensures
        outcome(None, RowStatus::CreateAndGo, satisfied) is Ok <==> satisfied,
        outcome(None, RowStatus::CreateAndGo, true) == Ok::<Option<RowStatus>, ErrorStatus>(
            Some(RowStatus::Active),
        ),
        outcome(None, RowStatus::CreateAndGo, false) == Err::<Option<RowStatus>, ErrorStatus>(
            ErrorStatus::InconsistentName,
        ),
        outcome(None, RowStatus::CreateAndWait, true) == Ok::<Option<RowStatus>, ErrorStatus>(
            Some(RowStatus::NotInService),
        ),
        outcome(None, RowStatus::CreateAndWait, false) == Ok::<Option<RowStatus>, ErrorStatus>(
            Some(RowStatus::NotReady),
        ),
        outcome(Some(s), RowStatus::CreateAndGo, satisfied) == Err::<
            Option<RowStatus>,
            ErrorStatus,
        >(ErrorStatus::InconsistentValue),
        outcome(Some(s), RowStatus::CreateAndWait, satisfied) == Err::<
            Option<RowStatus>,
            ErrorStatus,
        >(ErrorStatus::InconsistentValue),
{
}

/// A state can be asked for of a row that is there. It becomes active if it is complete, leaves
/// service from use or stays out of it, and is made unready only out of service.
pub proof fn rows_change_state(current: RowStatus, requested: RowStatus, satisfied: bool)
    requires
        current == RowStatus::Active || current == RowStatus::NotInService || current
            == RowStatus::NotReady,
        requested == RowStatus::Active || requested == RowStatus::NotInService || requested
            == RowStatus::NotReady,
    ensures
        outcome(Some(current), requested, satisfied) is Ok ==> outcome(
            Some(current),
            requested,
            satisfied,
        ) == Ok::<Option<RowStatus>, ErrorStatus>(Some(requested)),
        outcome(Some(current), requested, satisfied) is Err ==> outcome(
            Some(current),
            requested,
            satisfied,
        ) == Err::<Option<RowStatus>, ErrorStatus>(ErrorStatus::InconsistentValue),
        requested == RowStatus::Active ==> (outcome(Some(current), requested, satisfied) is Ok
            <==> satisfied),
        requested == RowStatus::NotInService ==> (outcome(Some(current), requested, satisfied) is Ok
            <==> current != RowStatus::NotReady),
        requested == RowStatus::NotReady ==> (outcome(Some(current), requested, satisfied) is Ok
            <==> current != RowStatus::Active),
        outcome(None, requested, satisfied) == Err::<Option<RowStatus>, ErrorStatus>(
            ErrorStatus::InconsistentName,
        ),
{
}

/// Each kind of value is stored under a letter of its own, numbers in decimal, and octets as text
/// where they are printable text and in hexadecimal where they are not.
pub proof fn stored_values_have_tags(n: i64, m: u32, l: u64, x: Seq<char>, v: ValueView)
    ensures
        value_pair(ValueView::Integer(n)) == ("i"@, signed_decimal(n as int)),
        value_pair(ValueView::Counter32(m)) == ("c"@, decimal(m as nat)),
        value_pair(ValueView::Gauge32(m)) == ("u"@, decimal(m as nat)),
        value_pair(ValueView::TimeTicks(m)) == ("t"@, decimal(m as nat)),
        value_pair(ValueView::Counter64(l)) == ("6"@, decimal(l as nat)),
        (v matches ValueView::OctetString(b) && b == utf8(x) && is_printable(x)) ==> value_pair(v)
            == ("s"@, x),
        (v matches ValueView::OctetString(b) && !vstd::utf8::valid_utf8(b)) ==> value_pair(v) == (
            "x"@,
            hex_text(v->OctetString_0),
        ),
        v matches ValueView::Oid(o) ==> value_pair(v) == ("o"@, oid_text(o)),
        v matches ValueView::IpAddress(ip) ==> value_pair(v) == ("a"@, ipv4_text(ip)),
        v matches ValueView::Opaque(b) ==> value_pair(v) == ("p"@, hex_text(b)),
        v is Null ==> value_pair(v).0 == "n"@,
{
    vstd::utf8::encode_utf8_valid_utf8(x);
    vstd::utf8::encode_utf8_decode_utf8(x);
}

/// Octets in hexadecimal may be stored with blanks between the digits.
pub proof fn blanks_in_stored_octets_do_not_count(a: Seq<char>, b: Seq<char>)
    ensures
        without_blanks(a + seq![' '] + b) == without_blanks(a + b),
        pair_value("x"@, a + seq![' '] + b) == pair_value("x"@, a + b),
        pair_value("p"@, a + seq![' '] + b) == pair_value("p"@, a + b),
    decreases b.len(),
{
    reveal_strlit("s");
    reveal_strlit("x");
    reveal_strlit("p");
    assert("s"@[0] == 's' && "x"@[0] == 'x' && "p"@[0] == 'p');
    let s = a + seq![' '] + b;
    if b.len() == 0 {
        assert(s.last() == ' ');
        assert(s.drop_last() =~= a);
        assert(a + b =~= a);
    } else {
        let t = b.drop_last();
        blanks_in_stored_octets_do_not_count(a, t);
        assert(s.drop_last() =~= a + seq![' '] + t);
        assert((a + b).drop_last() =~= a + t);
        assert(s.last() == (a + b).last());
    }
}

/// A line that is kept restores the value that it names by its kind and text; with one word it is
/// text. One that cannot be read, or says nothing, leaves the value.
pub proof fn kept_lines_restore_values(v: ValueView, d: DirectiveView)
    ensures
        d.args.len() == 0 ==> scalar_after(v, d) == v,
        d.args.len() == 1 ==> scalar_after(v, d) == ValueView::OctetString(utf8(d.args[0])),
        d.args.len() >= 2 ==> scalar_after(v, d) == (match pair_value(d.args[0], d.args[1]) {
            Some(x) => x,
            None => v,
        }),
        d.args.len() >= 2 && d.args[0].len() != 1 ==> scalar_after(v, d) == v,
{
    reveal_strlit("s");
    reveal_strlit("x");
    reveal_strlit("p");
    reveal_strlit("i");
    reveal_strlit("c");
    reveal_strlit("u");
    reveal_strlit("t");
    reveal_strlit("6");
    reveal_strlit("o");
    reveal_strlit("a");
    reveal_strlit("n");
}

/// A plain word is written as it is. One that is empty or has white space, quotes or backslashes
/// in it is written in quotes.
pub proof fn words_are_quoted_where_needed(s: Seq<char>)
    ensures
        s.len() > 0 && lacks(s, '"') && lacks(s, '\'') && lacks(s, '\\') && (forall|i: int|
            0 <= i < s.len() ==> !is_space(#[trigger] s[i])) ==> quote(s) == s,
        s.len() == 0 ==> quote(s) == seq!['"', '"'],
        s.len() > 0 && is_space(s[0]) ==> quote(s)[0] == '"' && quote(s).last() == '"',
{
    if s.len() == 0 {
        assert(quote(s) =~= seq!['"', '"']);
    }
    if s.len() > 0 && is_space(s[0]) {
        assert(is_special(s[0]));
    }
    if s.len() > 0 && lacks(s, '"') && lacks(s, '\'') && lacks(s, '\\') && (forall|i: int|
        0 <= i < s.len() ==> !is_space(#[trigger] s[i])) {
        assert forall|i: int| 0 <= i < s.len() implies !is_special(
            #[trigger] s[i],
        ) by {}
    }
}

/// What is kept is written one directive to a line: the token, then each argument behind a blank.
pub proof fn directives_are_written_on_lines(d: DirectiveView, ds: Seq<DirectiveView>, a: Seq<char>)
    ensures
        d.args.len() == 0 ==> line_text(d) == d.token,
        d.args == seq![a] ==> line_text(d) == d.token + seq![' '] + quote(a),
        lines_text(seq![d] + ds) == line_text(d) + seq!['\n'] + lines_text(ds),
        lines_text(Seq::empty()) == Seq::<char>::empty(),
{
    reveal_with_fuel(args_text, 3);
    let all = seq![d] + ds;
    assert(all.drop_first() =~= ds);
    assert(all[0] == d);
    if d.args.len() == 0 {
        assert(line_text(d) =~= d.token);
    }
    if d.args == seq![a] {
        assert(d.args.drop_first() =~= Seq::<Seq<char>>::empty());
        assert(line_text(d) =~= d.token + seq![' '] + quote(a));
    }
}

/// The boots of an engine count up to the greatest number and stay there, and are kept in a file
/// named after the engine in hexadecimal.
pub proof fn boots_count_up(n: u32, dir: Seq<char>, id: Seq<u8>, d: DirectiveView)
    ensures
        n < u32::MAX ==> bumped(n) == n + 1,
        bumped(u32::MAX) == u32::MAX,
        boots_path(dir + seq!['/'], id) == dir + seq!['/'] + hex_text(id) + ".boots"@,
        dir.len() > 0 && dir.last() != '/' ==> boots_path(dir, id) == boots_path(
            dir + seq!['/'],
            id,
        ),
        boots_path(seq![], id) == hex_text(id) + ".boots"@,
        boots_text(n) == decimal(n as nat) + seq!['\n'],
        d.args.len() > 0 && d.args[0] == decimal(n as nat) ==> boots_after(0, d) == n,
        d.args.len() == 0 ==> boots_after(n, d) == n,
{
    decimal_reads_back(n as nat, u32::MAX as nat);
    let p = dir + seq!['/'];
    let name = hex_text(id) + ".boots"@;
    assert(p.last() == '/');
    assert(p + name =~= dir + seq!['/'] + hex_text(id) + ".boots"@);
    assert(boots_text(n) =~= decimal(n as nat) + seq!['\n']);
}

/// Putting an item into the list replaces the first that has its key, and is put behind all others
/// where none has; the other items stay in their places.
pub proof fn items_are_put_by_key<P: Persistable>(
    items: Seq<P::Kept>,
    item: P::Kept,
    k: int,
)
    requires
        0 <= k <= items.len(),
        forall|j: int| 0 <= j < k ==> P::key_of(#[trigger] items[j]) != P::key_of(item),
        k < items.len() ==> P::key_of(items[k]) == P::key_of(item),
    ensures
        k < items.len() ==> put_item::<P>(items, item) == items.update(k, item),
        k == items.len() ==> put_item::<P>(items, item) == items.push(item),
    decreases items.len(),
{
    let r = put_item::<P>(items, item);
    if items.len() == 0 {
        assert(r =~= items.push(item));
    } else if k > 0 {
        let t = items.drop_first();
        assert(P::key_of(items[0]) != P::key_of(item));
        assert forall|j: int| 0 <= j < k - 1 implies P::key_of(#[trigger] t[j]) != P::key_of(
            item,
        ) by {
            assert(t[j] == items[j + 1]);
        }
        items_are_put_by_key::<P>(t, item, k - 1);
        if k < items.len() {
            assert(r =~= items.update(k, item));
        } else {
            assert(r =~= items.push(item));
        }
    }
}

} // verus!
