//! Which SETs the handlers take, and the fixed numbers and names of the protocol.

use vstd::prelude::*;

use crate::cells::find;
use crate::handler::MibHandler;
use crate::inet::ipv4_of;
use crate::inet::octet_value;
use crate::mibgroup::live::LiveHandler;
use crate::mibgroup::live::LiveState;
use crate::notify::cold_start_oid;
use crate::notify::warm_start_oid;
use crate::oid::is_prefix;
use crate::pdu::ErrorStatus;
use crate::pdu::PduType;
use crate::proxy::is_exception;
use crate::proxy::overlap;
use crate::scalar::compatible;
use crate::scalar::FnHandler;
use crate::scalar::FnState;
use crate::scalar::MapHandler;
use crate::scalar::MapState;
use crate::scalar::ScalarHandler;
use crate::scalar::ScalarState;
use crate::text::decimal;
use crate::text::hex_text;
use crate::text::lemma_decimal;
use crate::text::signed_decimal;
use crate::text_laws::lacks;
use crate::text_laws::only_digits_spell_numbers;
use crate::text_laws::separators_end_pieces;
use crate::value::ValueView;

verus! {

/// A scalar has one instance, its root with zero behind it, and answers for no other.
pub proof fn scalars_have_one_instance(s: ScalarState, oid: Seq<u32>)
    ensures
        ScalarHandler::get_of(s, s.root + seq![0u32]) == Some(s.value),
        oid != s.root + seq![0u32] ==> ScalarHandler::get_of(s, oid) is None,
{
    assert(s.instance() =~= s.root + seq![0u32]);
}

/// A scalar takes a SET if it can be written, of its own instance, with a value that may replace
/// its own. Each other SET is refused with the error that says why, the first of these that fits,
/// and the reservation itself changes nothing.
pub proof fn scalars_take_what_fits(s: ScalarState, oid: Seq<u32>, v: ValueView)
    ensures
        ({
            let own = s.root + seq![0u32];
            let r = ScalarHandler::prepare_of(s, oid, v);
            &&& r.0 == s
            &&& r.1 is Ok <==> s.writable && oid == own && compatible(s.value, v)
            &&& !s.writable ==> r.1 == Err::<(), ErrorStatus>(ErrorStatus::NotWritable)
            &&& s.writable && oid != own ==> r.1 == Err::<(), ErrorStatus>(ErrorStatus::NoCreation)
            &&& s.writable && oid == own && !compatible(s.value, v) ==> r.1 == Err::<
                (),
                ErrorStatus,
            >(ErrorStatus::WrongType)
        }),
{
    assert(s.instance() =~= s.root + seq![0u32]);
}

/// A SET that is carried out gives a scalar its value, and leaves its place and its permission.
pub proof fn scalars_keep_their_place(s: ScalarState, oid: Seq<u32>, v: ValueView)
    ensures
        ({
            let r = ScalarHandler::commit_of(s, oid, v);
            &&& r.0.root == s.root && r.0.writable == s.writable
            &&& r.1 is Ok ==> r.0.value == v
            &&& r.1 is Err ==> r.0 == s
            &&& r.1 is Ok <==> s.writable && oid == s.root + seq![0u32]
        }),
{
    assert(s.instance() =~= s.root + seq![0u32]);
}

/// A map of instances takes a SET if it can be written, of an instance that is there, with a value
/// that may replace the one there; it does not make instances.
pub proof fn maps_take_what_fits(s: MapState, oid: Seq<u32>, v: ValueView)
    ensures
        ({
            let r = MapHandler::prepare_of(s, oid, v);
            let there = MapHandler::get_of(s, oid);
            &&& r.0 == s
            &&& r.1 is Ok <==> s.writable && (there matches Some(x) && compatible(x, v))
            &&& !s.writable ==> r.1 == Err::<(), ErrorStatus>(ErrorStatus::NotWritable)
            &&& s.writable && there is None ==> r.1 == Err::<(), ErrorStatus>(
                ErrorStatus::NoCreation,
            )
            &&& s.writable && (there matches Some(x) && !compatible(x, v)) ==> r.1 == Err::<
                (),
                ErrorStatus,
            >(ErrorStatus::WrongType)
            &&& MapHandler::commit_of(s, oid, v).1 is Err ==> MapHandler::commit_of(s, oid, v).0 == s
            &&& MapHandler::commit_of(s, oid, v).0.root == s.root
            &&& MapHandler::commit_of(s, oid, v).0.writable == s.writable
        }),
{
}

/// Tables of what was sampled or counted cannot be written, and a SET leaves them as they are.
pub proof fn sampled_tables_are_not_written(
    s: FnState,
    l: LiveState,
    oid: Seq<u32>,
    v: ValueView,
)
    ensures
        FnHandler::commit_of(s, oid, v) == (
            s,
            Err::<(), ErrorStatus>(ErrorStatus::NotWritable),
        ),
        LiveHandler::commit_of(l, oid, v) == (
            l,
            Err::<(), ErrorStatus>(ErrorStatus::NotWritable),
        ),
        FnHandler::prepare_of(s, oid, v).0 == s,
        LiveHandler::prepare_of(l, oid, v).0 == l,
        FnHandler::get_of(s, oid) == find(s.cells, oid),
{
}

/// The errors have the numbers 0 to 18, and any other number is read as a general error.
pub proof fn errors_have_numbers(code: i64)
    ensures
        ErrorStatus::NoError.code_of() == 0,
        ErrorStatus::TooBig.code_of() == 1,
        ErrorStatus::NoSuchName.code_of() == 2,
        ErrorStatus::BadValue.code_of() == 3,
        ErrorStatus::ReadOnly.code_of() == 4,
        ErrorStatus::GenErr.code_of() == 5,
        ErrorStatus::NoAccess.code_of() == 6,
        ErrorStatus::WrongType.code_of() == 7,
        ErrorStatus::WrongLength.code_of() == 8,
        ErrorStatus::WrongEncoding.code_of() == 9,
        ErrorStatus::WrongValue.code_of() == 10,
        ErrorStatus::NoCreation.code_of() == 11,
        ErrorStatus::InconsistentValue.code_of() == 12,
        ErrorStatus::ResourceUnavailable.code_of() == 13,
        ErrorStatus::CommitFailed.code_of() == 14,
        ErrorStatus::UndoFailed.code_of() == 15,
        ErrorStatus::AuthorizationError.code_of() == 16,
        ErrorStatus::NotWritable.code_of() == 17,
        ErrorStatus::InconsistentName.code_of() == 18,
        0 <= code <= 18 ==> ErrorStatus::of_code(code).code_of() == code,
        !(0 <= code <= 18) ==> ErrorStatus::of_code(code) == ErrorStatus::GenErr,
{
}

/// The notifications have tags of their own, and starting cold or warm has a name.
pub proof fn notifications_have_names()
    ensures
        PduType::TrapV1.tag_of() == 0xa4,
        PduType::Inform.tag_of() == 0xa6,
        PduType::TrapV2.tag_of() == 0xa7,
        PduType::Report.tag_of() == 0xa8,
        cold_start_oid() == seq![1u32, 3, 6, 1, 6, 3, 1, 1, 5, 1],
        warm_start_oid() == seq![1u32, 3, 6, 1, 6, 3, 1, 1, 5, 2],
{
}

/// Two subtrees overlap where a name lies in both, and only there: the root of one of them is such
/// a name.
pub proof fn overlapping_subtrees_share_names(a: Seq<u32>, b: Seq<u32>, oid: Seq<u32>)
    ensures
        is_prefix(a, oid) && is_prefix(b, oid) ==> overlap(a, b),
        overlap(a, b) == overlap(b, a),
        overlap(a, a),
        overlap(a, b) ==> (is_prefix(a, b) && is_prefix(b, b)) || (is_prefix(a, a) && is_prefix(
            b,
            a,
        )),
{
    assert(a.take(a.len() as int) =~= a);
    assert(b.take(b.len() as int) =~= b);
    if is_prefix(a, oid) && is_prefix(b, oid) {
        if a.len() <= b.len() {
            assert(b.take(a.len() as int) =~= oid.take(a.len() as int));
        } else {
            assert(a.take(b.len() as int) =~= oid.take(b.len() as int));
        }
    }
}

/// The three exceptions are no data, and everything else is.
pub proof fn exceptions_are_three(v: ValueView)
    ensures
        is_exception(v) <==> v == ValueView::NoSuchObject || v == ValueView::NoSuchInstance || v
            == ValueView::EndOfMibView,
{
}

/// Numbers are spelled in base ten, from the highest digit and without zeros before it, and with a
/// minus sign where they are negative.
pub proof fn numbers_are_spelled_in_decimal(n: nat)
    ensures
        n < 10 ==> decimal(n) == seq![('0' as u32 + n) as char],
        n >= 10 ==> decimal(n) == decimal(n / 10) + seq![('0' as u32 + n % 10) as char],
        n > 0 ==> decimal(n)[0] != '0',
        signed_decimal(n as int) == decimal(n),
        n > 0 ==> signed_decimal(-n) == seq!['-'] + decimal(n),
    decreases n,
{
    if n >= 10 {
        numbers_are_spelled_in_decimal(n / 10);
        lemma_decimal(n / 10);
        assert(decimal(n) =~= decimal(n / 10) + seq![('0' as u32 + n % 10) as char]);
        assert(decimal(n)[0] == decimal(n / 10)[0]);
    }
}

/// Octets are spelled by two digits each, the high one first, in lower case.
pub proof fn octets_are_spelled_in_hexadecimal(b: Seq<u8>, x: u8)
    ensures
        ({
            let s = hex_text(b.push(x));
            let high = x as int / 16;
            let low = x as int % 16;
            &&& hex_text(Seq::empty()) == Seq::<char>::empty()
            &&& s.len() == hex_text(b).len() + 2
            &&& s.take(s.len() - 2) == hex_text(b)
            &&& high < 10 ==> s[s.len() - 2] == ('0' as u32 + high) as char
            &&& high >= 10 ==> s[s.len() - 2] == ('a' as u32 + high - 10) as char
            &&& low < 10 ==> s[s.len() - 1] == ('0' as u32 + low) as char
            &&& low >= 10 ==> s[s.len() - 1] == ('a' as u32 + low - 10) as char
        }),
{
    assert(b.push(x).drop_last() =~= b);
    let s = hex_text(b.push(x));
    assert(s.take(s.len() - 2) =~= hex_text(b));
}

/// An octet of an address is a number up to 255 without zeros before it or a sign, and an address
/// has four of them with dots between.
pub proof fn addresses_have_four_octets(n: nat, s: Seq<char>)
    ensures
        n > 255 ==> octet_value(decimal(n)) is None,
        s.len() > 1 && s[0] == '0' ==> octet_value(s) is None,
        s.len() > 0 && s[0] == '+' ==> octet_value(s) is None,
        octet_value(Seq::empty()) is None,
        lacks(s, '.') ==> ipv4_of(s) is None,
{
    only_digits_spell_numbers(n, 255, s, 0);
    if lacks(s, '.') {
        separators_end_pieces(s, '.', s);
    }
}

} // verus!
