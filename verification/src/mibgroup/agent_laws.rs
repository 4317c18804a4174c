//! What the tables of the agent itself answer.

use vstd::prelude::*;

use crate::any_handler::AnyHandler;
use crate::cells::lemma_find_at;
use crate::cells::CellView;
use crate::handler::MibHandler;
use crate::inet::ipv4_text;
use crate::inet::ipv4_text_reads_back;
use crate::mibgroup::collector::is_interface_of;
use crate::mibgroup::collector::mac_of;
use crate::mibgroup::collector::one_per_mount;
use crate::mibgroup::collector::DiskSample;
use crate::mibgroup::collector::NetSample;
use crate::mibgroup::extend::extend_group;
use crate::mibgroup::extend::extend_row;
use crate::mibgroup::interfaces::Interface;
use crate::mibgroup::netsnmp_agent::cache_cells;
use crate::mibgroup::netsnmp_agent::cache_row;
use crate::mibgroup::netsnmp_agent::module_cache_cells;
use crate::mibgroup::netsnmp_agent::module_row;
use crate::mibgroup::netsnmp_agent::module_rows;
use crate::mibgroup::netsnmp_agent::name_lt;
use crate::mibgroup::netsnmp_agent::ttl_of;
use crate::mibgroup::netsnmp_agent::with_ttl;
use crate::mibgroup::netsnmp_agent::without;
use crate::mibgroup::netsnmp_agent::CacheView;
use crate::mibgroup::netsnmp_agent::Modules;
use crate::mibgroup::netsnmp_agent::NsCacheHandler;
use crate::mibgroup::netsnmp_agent::Ttl;
use crate::mibgroup::notify::notify_row;
use crate::mibgroup::notify::notify_rows;
use crate::mibgroup::notify::params_row;
use crate::mibgroup::notify::params_rows;
use crate::mibgroup::notify::target_row;
use crate::mibgroup::notify::target_rows;
use crate::mibgroup::notify::udp_address_of;
use crate::mibgroup::set_serial::serial_after;
use crate::mibgroup::smux_mib::smux_group;
use crate::mibgroup::smux_mib::smux_tree_row;
use crate::mibgroup::smux_mib::smux_tree_rows;
use crate::mibgroup::snmp_framework::framework_states;
use crate::mibgroup::snmp_framework::EngineSnapshot;
use crate::mibgroup::system::description_of;
use crate::mibgroup::system::system_states;
use crate::mibgroup::system::SystemFacts;
use crate::mibgroup::ucd::first_line;
use crate::mibgroup::ucd::joined;
use crate::mibgroup::ucd::ExecView;
use crate::mibgroup::vacm::access_row;
use crate::mibgroup::vacm::access_rows;
use crate::mibgroup::vacm::context_rows;
use crate::mibgroup::vacm::s2g_row;
use crate::mibgroup::vacm::s2g_rows;
use crate::mibgroup::vacm::view_row;
use crate::mibgroup::vacm::view_rows;
use crate::notify::NotifyType;
use crate::notify::NotifyView;
use crate::notify::ParamsView;
use crate::notify::TargetView;
use crate::scalar::FnHandler;
use crate::smux::server::owners;
use crate::smux::server::SmuxPeer;
use crate::smux::server::SmuxServer;
use crate::table_laws::all_under;
use crate::table_laws::first_listed_cell_answers;
use crate::table_laws::flat;
use crate::table_laws::last_cell_answers;
use crate::table_laws::later_cells_answer_first;
use crate::table_laws::lemma_listed_cell;
use crate::table_laws::lemma_row_cell;
use crate::table_laws::listed_answer;
use crate::table_laws::other_arcs_are_not_answered;
use crate::table_laws::table_answer;
use crate::table_laws::tables_answer_for_their_cells;
use crate::text::decimal;
use crate::text::decimal_reads_back;
use crate::text::lemma_decimal;
use crate::text::lines;
use crate::text::starts_with;
use crate::text_laws::lacks;
use crate::text_laws::last_occurrence_is_found;
use crate::vacm::ContextMatch;
use crate::vacm::VacmAccess;
use crate::vacm::VacmGroup;
use crate::vacm::VacmView;
use crate::vacm::ViewTreeFamilyType;
use crate::value::utf8;
use crate::value::Ipv4Addr;
use crate::value::ValueView;

verus! {

/// The index that counted octets make: their number, then each of them.
pub open spec fn counted(b: Seq<u8>) -> Seq<u32> {
    Seq::new(
        b.len() + 1,
        |i: int|
            if i == 0 {
                b.len() as u32
            } else {
                b[i - 1] as u32
            },
    )
}

/// The index of an assignment to a group: its model and counted name.
pub open spec fn member_of(g: VacmGroup) -> Seq<u32> {
    seq![g.security_model as u32] + counted(g.security_name@)
}

/// The index of an access entry: its group, context, model and level.
pub open spec fn granted_to(a: VacmAccess) -> Seq<u32> {
    counted(a.group@) + counted(a.context_prefix@) + seq![
        a.security_model as u32,
        a.security_level as u32,
    ]
}

/// The index of a family: its view and its counted subtree.
pub open spec fn family_at(v: (Vec<u8>, VacmView)) -> Seq<u32> {
    counted(v.0@) + seq![v.1.subtree@.len() as u32] + v.1.subtree@
}

/// The index that octets make: each of them.
pub open spec fn spelled(b: Seq<u8>) -> Seq<u32> {
    Seq::new(b.len(), |i: int| b[i] as u32)
}

proof fn lemma_targets_are_listed_rows(ts: Seq<TargetView>)
    ensures
        target_rows(ts) == flat(Seq::new(ts.len(), |i: int| target_row(ts[i]))),
    decreases ts.len(),
{
    let rows = Seq::new(ts.len(), |i: int| target_row(ts[i]));
    if ts.len() > 0 {
        let t = ts.drop_last();
        lemma_targets_are_listed_rows(t);
        assert(rows.drop_last() =~= Seq::new(t.len(), |i: int| target_row(t[i])));
        assert(rows.last() == target_row(ts.last()));
        assert(target_rows(ts) == target_rows(t) + rows.last());
    } else {
        assert(target_rows(ts) =~= flat(rows));
    }
}

proof fn lemma_targets_are_listed_shape(x: TargetView, i: int)
    ensures
        target_row(x).len() == 8,
        forall|j: int|
            0 <= j < 8
                ==> (#[trigger] target_row(x)[j]).0.len() >= 11 && target_row(x)[j].0.skip(11)
                == counted(utf8(x.name)),
{
    let row = target_row(x);
    let ix = counted(utf8(x.name));
    assert forall|j: int| 0 <= j < 8 implies (#[trigger] row[j]).0.len() >= 11 && row[j].0.skip(
        11,
    ) == ix by {
        if j == 0 {
            assert(row[0].0.skip(11) =~= ix);
        }         else if j == 1 {
            assert(row[1].0.skip(11) =~= ix);
        }         else if j == 2 {
            assert(row[2].0.skip(11) =~= ix);
        }         else if j == 3 {
            assert(row[3].0.skip(11) =~= ix);
        }         else if j == 4 {
            assert(row[4].0.skip(11) =~= ix);
        }         else if j == 5 {
            assert(row[5].0.skip(11) =~= ix);
        }         else if j == 6 {
            assert(row[6].0.skip(11) =~= ix);
        }         else {
            assert(row[7].0.skip(11) =~= ix);
        }
    }
}

/// `snmpTargetAddrTable` answers for each target, by its name, with its transport, address, time to
/// wait, retries, tag and parameters.
pub proof fn targets_are_listed(ts: Seq<TargetView>, k: int)
    requires
        0 <= k < ts.len(),
        forall|j: int| 0 <= j < k ==> counted(utf8((#[trigger] ts[j]).name)) != counted(
            utf8(ts[k].name),
        ),
    ensures
        ({
            let x = ts[k];
            let t = target_rows(ts);
            let at = counted(utf8(x.name));
            &&& listed_answer(t, seq![1u32, 3, 6, 1, 6, 3, 12, 1, 2, 1, 2] + at) == Some(
                ValueView::Oid(seq![1u32, 3, 6, 1, 6, 1, 1]),
            )
            &&& listed_answer(t, seq![1u32, 3, 6, 1, 6, 3, 12, 1, 2, 1, 3] + at) == Some(
                ValueView::OctetString(udp_address_of(x.address)),
            )
            &&& listed_answer(t, seq![1u32, 3, 6, 1, 6, 3, 12, 1, 2, 1, 4] + at) == Some(
                ValueView::TimeTicks((x.timeout_ms as int / 10 % 0x1_0000_0000) as u32),
            )
            &&& listed_answer(t, seq![1u32, 3, 6, 1, 6, 3, 12, 1, 2, 1, 5] + at) == Some(
                ValueView::Integer(x.retries as i64),
            )
            &&& listed_answer(t, seq![1u32, 3, 6, 1, 6, 3, 12, 1, 2, 1, 6] + at) == Some(
                ValueView::OctetString(utf8(x.name)),
            )
            &&& listed_answer(t, seq![1u32, 3, 6, 1, 6, 3, 12, 1, 2, 1, 7] + at) == Some(
                ValueView::OctetString(utf8(x.params_name)),
            )
            &&& listed_answer(t, seq![1u32, 3, 6, 1, 6, 3, 12, 1, 2, 1, 8] + at) == Some(
                ValueView::Integer(2),
            )
            &&& listed_answer(t, seq![1u32, 3, 6, 1, 6, 3, 12, 1, 2, 1, 9] + at) == Some(
                ValueView::Integer(1),
            )
        }),
{
    let rows = Seq::new(ts.len(), |i: int| target_row(ts[i]));
    let ids = Seq::new(ts.len(), |i: int| counted(utf8(ts[i].name)));
    lemma_targets_are_listed_rows(ts);
    assert forall|r: int, j: int|
        #![trigger rows[r][j]]
        0 <= r <= k && 0 <= j < rows[r].len() implies rows[r][j].0.len() >= 11
            && rows[r][j].0.skip(11) == ids[r] by {
        lemma_targets_are_listed_shape(ts[r], r);
    }
    assert forall|r: int| 0 <= r < k implies #[trigger] ids[r] != ids[k] by {
        let p = counted(utf8(ts[r].name));
        let q = counted(utf8(ts[k].name));
        assert(p != q);
    }
    let row = rows[k];
    let at = ids[k];
    lemma_targets_are_listed_shape(ts[k], k);
    assert(row[0].0 =~= seq![1u32, 3, 6, 1, 6, 3, 12, 1, 2, 1, 2] + at);
    lemma_listed_cell(rows, 11, ids, k, 0);
    assert(row[1].0 =~= seq![1u32, 3, 6, 1, 6, 3, 12, 1, 2, 1, 3] + at);
    lemma_listed_cell(rows, 11, ids, k, 1);
    assert(row[2].0 =~= seq![1u32, 3, 6, 1, 6, 3, 12, 1, 2, 1, 4] + at);
    lemma_listed_cell(rows, 11, ids, k, 2);
    assert(row[3].0 =~= seq![1u32, 3, 6, 1, 6, 3, 12, 1, 2, 1, 5] + at);
    lemma_listed_cell(rows, 11, ids, k, 3);
    assert(row[4].0 =~= seq![1u32, 3, 6, 1, 6, 3, 12, 1, 2, 1, 6] + at);
    lemma_listed_cell(rows, 11, ids, k, 4);
    assert(row[5].0 =~= seq![1u32, 3, 6, 1, 6, 3, 12, 1, 2, 1, 7] + at);
    lemma_listed_cell(rows, 11, ids, k, 5);
    assert(row[6].0 =~= seq![1u32, 3, 6, 1, 6, 3, 12, 1, 2, 1, 8] + at);
    lemma_listed_cell(rows, 11, ids, k, 6);
    assert(row[7].0 =~= seq![1u32, 3, 6, 1, 6, 3, 12, 1, 2, 1, 9] + at);
    lemma_listed_cell(rows, 11, ids, k, 7);
}

proof fn lemma_parameters_are_listed_rows(ps: Seq<ParamsView>)
    ensures
        params_rows(ps) == flat(Seq::new(ps.len(), |i: int| params_row(ps[i]))),
    decreases ps.len(),
{
    let rows = Seq::new(ps.len(), |i: int| params_row(ps[i]));
    if ps.len() > 0 {
        let t = ps.drop_last();
        lemma_parameters_are_listed_rows(t);
        assert(rows.drop_last() =~= Seq::new(t.len(), |i: int| params_row(t[i])));
        assert(rows.last() == params_row(ps.last()));
        assert(params_rows(ps) == params_rows(t) + rows.last());
    } else {
        assert(params_rows(ps) =~= flat(rows));
    }
}

proof fn lemma_parameters_are_listed_shape(x: ParamsView, i: int)
    ensures
        params_row(x).len() == 6,
        forall|j: int|
            0 <= j < 6
                ==> (#[trigger] params_row(x)[j]).0.len() >= 11 && params_row(x)[j].0.skip(11)
                == counted(utf8(x.name)),
{
    let row = params_row(x);
    let ix = counted(utf8(x.name));
    assert forall|j: int| 0 <= j < 6 implies (#[trigger] row[j]).0.len() >= 11 && row[j].0.skip(
        11,
    ) == ix by {
        if j == 0 {
            assert(row[0].0.skip(11) =~= ix);
        }         else if j == 1 {
            assert(row[1].0.skip(11) =~= ix);
        }         else if j == 2 {
            assert(row[2].0.skip(11) =~= ix);
        }         else if j == 3 {
            assert(row[3].0.skip(11) =~= ix);
        }         else if j == 4 {
            assert(row[4].0.skip(11) =~= ix);
        }         else {
            assert(row[5].0.skip(11) =~= ix);
        }
    }
}

/// `snmpTargetParamsTable` answers for each set of parameters, by its name, with its message and
/// security models, security name and security level.
pub proof fn parameters_are_listed(ps: Seq<ParamsView>, k: int)
    requires
        0 <= k < ps.len(),
        forall|j: int| 0 <= j < k ==> counted(utf8((#[trigger] ps[j]).name)) != counted(
            utf8(ps[k].name),
        ),
    ensures
        ({
            let x = ps[k];
            let t = params_rows(ps);
            let at = counted(utf8(x.name));
            &&& listed_answer(t, seq![1u32, 3, 6, 1, 6, 3, 12, 1, 3, 1, 2] + at) == Some(
                ValueView::Integer(x.mp_model as i64),
            )
            &&& listed_answer(t, seq![1u32, 3, 6, 1, 6, 3, 12, 1, 3, 1, 3] + at) == Some(
                ValueView::Integer(x.security_model as i64),
            )
            &&& listed_answer(t, seq![1u32, 3, 6, 1, 6, 3, 12, 1, 3, 1, 4] + at) == Some(
                ValueView::OctetString(x.security_name),
            )
            &&& listed_answer(t, seq![1u32, 3, 6, 1, 6, 3, 12, 1, 3, 1, 5] + at) == Some(
                ValueView::Integer(x.security_level as i64),
            )
            &&& listed_answer(t, seq![1u32, 3, 6, 1, 6, 3, 12, 1, 3, 1, 6] + at) == Some(
                ValueView::Integer(2),
            )
            &&& listed_answer(t, seq![1u32, 3, 6, 1, 6, 3, 12, 1, 3, 1, 7] + at) == Some(
                ValueView::Integer(1),
            )
        }),
{
    let rows = Seq::new(ps.len(), |i: int| params_row(ps[i]));
    let ids = Seq::new(ps.len(), |i: int| counted(utf8(ps[i].name)));
    lemma_parameters_are_listed_rows(ps);
    assert forall|r: int, j: int|
        #![trigger rows[r][j]]
        0 <= r <= k && 0 <= j < rows[r].len() implies rows[r][j].0.len() >= 11
            && rows[r][j].0.skip(11) == ids[r] by {
        lemma_parameters_are_listed_shape(ps[r], r);
    }
    assert forall|r: int| 0 <= r < k implies #[trigger] ids[r] != ids[k] by {
        let p = counted(utf8(ps[r].name));
        let q = counted(utf8(ps[k].name));
        assert(p != q);
    }
    let row = rows[k];
    let at = ids[k];
    lemma_parameters_are_listed_shape(ps[k], k);
    assert(row[0].0 =~= seq![1u32, 3, 6, 1, 6, 3, 12, 1, 3, 1, 2] + at);
    lemma_listed_cell(rows, 11, ids, k, 0);
    assert(row[1].0 =~= seq![1u32, 3, 6, 1, 6, 3, 12, 1, 3, 1, 3] + at);
    lemma_listed_cell(rows, 11, ids, k, 1);
    assert(row[2].0 =~= seq![1u32, 3, 6, 1, 6, 3, 12, 1, 3, 1, 4] + at);
    lemma_listed_cell(rows, 11, ids, k, 2);
    assert(row[3].0 =~= seq![1u32, 3, 6, 1, 6, 3, 12, 1, 3, 1, 5] + at);
    lemma_listed_cell(rows, 11, ids, k, 3);
    assert(row[4].0 =~= seq![1u32, 3, 6, 1, 6, 3, 12, 1, 3, 1, 6] + at);
    lemma_listed_cell(rows, 11, ids, k, 4);
    assert(row[5].0 =~= seq![1u32, 3, 6, 1, 6, 3, 12, 1, 3, 1, 7] + at);
    lemma_listed_cell(rows, 11, ids, k, 5);
}

proof fn lemma_notifications_are_listed_rows(ns: Seq<NotifyView>)
    ensures
        notify_rows(ns) == flat(Seq::new(ns.len(), |i: int| notify_row(ns[i]))),
    decreases ns.len(),
{
    let rows = Seq::new(ns.len(), |i: int| notify_row(ns[i]));
    if ns.len() > 0 {
        let t = ns.drop_last();
        lemma_notifications_are_listed_rows(t);
        assert(rows.drop_last() =~= Seq::new(t.len(), |i: int| notify_row(t[i])));
        assert(rows.last() == notify_row(ns.last()));
        assert(notify_rows(ns) == notify_rows(t) + rows.last());
    } else {
        assert(notify_rows(ns) =~= flat(rows));
    }
}

proof fn lemma_notifications_are_listed_shape(x: NotifyView, i: int)
    ensures
        notify_row(x).len() == 4,
        forall|j: int|
            0 <= j < 4
                ==> (#[trigger] notify_row(x)[j]).0.len() >= 11 && notify_row(x)[j].0.skip(11)
                == counted(utf8(x.name)),
{
    let row = notify_row(x);
    let ix = counted(utf8(x.name));
    assert forall|j: int| 0 <= j < 4 implies (#[trigger] row[j]).0.len() >= 11 && row[j].0.skip(
        11,
    ) == ix by {
        if j == 0 {
            assert(row[0].0.skip(11) =~= ix);
        }         else if j == 1 {
            assert(row[1].0.skip(11) =~= ix);
        }         else if j == 2 {
            assert(row[2].0.skip(11) =~= ix);
        }         else {
            assert(row[3].0.skip(11) =~= ix);
        }
    }
}

/// `snmpNotifyTable` answers for each entry, by its name, with its tag and whether it is a trap or
/// an inform.
pub proof fn notifications_are_listed(ns: Seq<NotifyView>, k: int)
    requires
        0 <= k < ns.len(),
        forall|j: int| 0 <= j < k ==> counted(utf8((#[trigger] ns[j]).name)) != counted(
            utf8(ns[k].name),
        ),
    ensures
        ({
            let x = ns[k];
            let t = notify_rows(ns);
            let at = counted(utf8(x.name));
            &&& listed_answer(t, seq![1u32, 3, 6, 1, 6, 3, 13, 1, 1, 1, 2] + at) == Some(
                ValueView::OctetString(utf8(x.tag)),
            )
            &&& listed_answer(t, seq![1u32, 3, 6, 1, 6, 3, 13, 1, 1, 1, 3] + at) == Some(
                ValueView::Integer(if x.typ == NotifyType::Inform { 2 } else { 1 }),
            )
            &&& listed_answer(t, seq![1u32, 3, 6, 1, 6, 3, 13, 1, 1, 1, 4] + at) == Some(
                ValueView::Integer(2),
            )
            &&& listed_answer(t, seq![1u32, 3, 6, 1, 6, 3, 13, 1, 1, 1, 5] + at) == Some(
                ValueView::Integer(1),
            )
        }),
{
    let rows = Seq::new(ns.len(), |i: int| notify_row(ns[i]));
    let ids = Seq::new(ns.len(), |i: int| counted(utf8(ns[i].name)));
    lemma_notifications_are_listed_rows(ns);
    assert forall|r: int, j: int|
        #![trigger rows[r][j]]
        0 <= r <= k && 0 <= j < rows[r].len() implies rows[r][j].0.len() >= 11
            && rows[r][j].0.skip(11) == ids[r] by {
        lemma_notifications_are_listed_shape(ns[r], r);
    }
    assert forall|r: int| 0 <= r < k implies #[trigger] ids[r] != ids[k] by {
        let p = counted(utf8(ns[r].name));
        let q = counted(utf8(ns[k].name));
        assert(p != q);
    }
    let row = rows[k];
    let at = ids[k];
    lemma_notifications_are_listed_shape(ns[k], k);
    assert(row[0].0 =~= seq![1u32, 3, 6, 1, 6, 3, 13, 1, 1, 1, 2] + at);
    lemma_listed_cell(rows, 11, ids, k, 0);
    assert(row[1].0 =~= seq![1u32, 3, 6, 1, 6, 3, 13, 1, 1, 1, 3] + at);
    lemma_listed_cell(rows, 11, ids, k, 1);
    assert(row[2].0 =~= seq![1u32, 3, 6, 1, 6, 3, 13, 1, 1, 1, 4] + at);
    lemma_listed_cell(rows, 11, ids, k, 2);
    assert(row[3].0 =~= seq![1u32, 3, 6, 1, 6, 3, 13, 1, 1, 1, 5] + at);
    lemma_listed_cell(rows, 11, ids, k, 3);
}

proof fn lemma_groups_are_listed_rows(gs: Seq<VacmGroup>)
    ensures
        s2g_rows(gs) == flat(Seq::new(gs.len(), |i: int| s2g_row(gs[i]))),
    decreases gs.len(),
{
    let rows = Seq::new(gs.len(), |i: int| s2g_row(gs[i]));
    if gs.len() > 0 {
        let t = gs.drop_last();
        lemma_groups_are_listed_rows(t);
        assert(rows.drop_last() =~= Seq::new(t.len(), |i: int| s2g_row(t[i])));
        assert(rows.last() == s2g_row(gs.last()));
        assert(s2g_rows(gs) == s2g_rows(t) + rows.last());
    } else {
        assert(s2g_rows(gs) =~= flat(rows));
    }
}

proof fn lemma_groups_are_listed_shape(x: VacmGroup, i: int)
    ensures
        s2g_row(x).len() == 3,
        forall|j: int|
            0 <= j < 3 ==> (#[trigger] s2g_row(x)[j]).0.len() >= 11 && s2g_row(x)[j].0.skip(11)
                == member_of(x),
{
    let row = s2g_row(x);
    let ix = member_of(x);
    assert forall|j: int| 0 <= j < 3 implies (#[trigger] row[j]).0.len() >= 11 && row[j].0.skip(
        11,
    ) == ix by {
        if j == 0 {
            assert(row[0].0.skip(11) =~= ix);
        }         else if j == 1 {
            assert(row[1].0.skip(11) =~= ix);
        }         else {
            assert(row[2].0.skip(11) =~= ix);
        }
    }
}

/// `vacmSecurityToGroupTable` answers for each assignment, by its model and name, with its group.
pub proof fn groups_are_listed(gs: Seq<VacmGroup>, k: int)
    requires
        0 <= k < gs.len(),
        forall|j: int| 0 <= j < k ==> member_of((#[trigger] gs[j])) != member_of(gs[k]),
    ensures
        ({
            let x = gs[k];
            let t = s2g_rows(gs);
            let at = member_of(x);
            &&& listed_answer(t, seq![1u32, 3, 6, 1, 6, 3, 16, 1, 2, 1, 3] + at) == Some(
                ValueView::OctetString(x.group@),
            )
            &&& listed_answer(t, seq![1u32, 3, 6, 1, 6, 3, 16, 1, 2, 1, 4] + at) == Some(
                ValueView::Integer(2),
            )
            &&& listed_answer(t, seq![1u32, 3, 6, 1, 6, 3, 16, 1, 2, 1, 5] + at) == Some(
                ValueView::Integer(1),
            )
        }),
{
    let rows = Seq::new(gs.len(), |i: int| s2g_row(gs[i]));
    let ids = Seq::new(gs.len(), |i: int| member_of(gs[i]));
    lemma_groups_are_listed_rows(gs);
    assert forall|r: int, j: int|
        #![trigger rows[r][j]]
        0 <= r <= k && 0 <= j < rows[r].len() implies rows[r][j].0.len() >= 11
            && rows[r][j].0.skip(11) == ids[r] by {
        lemma_groups_are_listed_shape(gs[r], r);
    }
    assert forall|r: int| 0 <= r < k implies #[trigger] ids[r] != ids[k] by {
        let p = member_of(gs[r]);
        let q = member_of(gs[k]);
        assert(p != q);
    }
    let row = rows[k];
    let at = ids[k];
    lemma_groups_are_listed_shape(gs[k], k);
    assert(row[0].0 =~= seq![1u32, 3, 6, 1, 6, 3, 16, 1, 2, 1, 3] + at);
    lemma_listed_cell(rows, 11, ids, k, 0);
    assert(row[1].0 =~= seq![1u32, 3, 6, 1, 6, 3, 16, 1, 2, 1, 4] + at);
    lemma_listed_cell(rows, 11, ids, k, 1);
    assert(row[2].0 =~= seq![1u32, 3, 6, 1, 6, 3, 16, 1, 2, 1, 5] + at);
    lemma_listed_cell(rows, 11, ids, k, 2);
}

proof fn lemma_access_entries_are_listed_rows(es: Seq<VacmAccess>)
    ensures
        access_rows(es) == flat(Seq::new(es.len(), |i: int| access_row(es[i]))),
    decreases es.len(),
{
    let rows = Seq::new(es.len(), |i: int| access_row(es[i]));
    if es.len() > 0 {
        let t = es.drop_last();
        lemma_access_entries_are_listed_rows(t);
        assert(rows.drop_last() =~= Seq::new(t.len(), |i: int| access_row(t[i])));
        assert(rows.last() == access_row(es.last()));
        assert(access_rows(es) == access_rows(t) + rows.last());
    } else {
        assert(access_rows(es) =~= flat(rows));
    }
}

proof fn lemma_access_entries_are_listed_shape(x: VacmAccess, i: int)
    ensures
        access_row(x).len() == 6,
        forall|j: int|
            0 <= j < 6
                ==> (#[trigger] access_row(x)[j]).0.len() >= 11 && access_row(x)[j].0.skip(11)
                == granted_to(x),
{
    let row = access_row(x);
    let ix = granted_to(x);
    assert forall|j: int| 0 <= j < 6 implies (#[trigger] row[j]).0.len() >= 11 && row[j].0.skip(
        11,
    ) == ix by {
        if j == 0 {
            assert(row[0].0.skip(11) =~= ix);
        }         else if j == 1 {
            assert(row[1].0.skip(11) =~= ix);
        }         else if j == 2 {
            assert(row[2].0.skip(11) =~= ix);
        }         else if j == 3 {
            assert(row[3].0.skip(11) =~= ix);
        }         else if j == 4 {
            assert(row[4].0.skip(11) =~= ix);
        }         else {
            assert(row[5].0.skip(11) =~= ix);
        }
    }
}

/// `vacmAccessTable` answers for each entry, by its group, context, model and level, with how the
/// context is compared and the names of the views for reading, writing and notifying.
pub proof fn access_entries_are_listed(es: Seq<VacmAccess>, k: int)
    requires
        0 <= k < es.len(),
        forall|j: int| 0 <= j < k ==> granted_to((#[trigger] es[j])) != granted_to(es[k]),
    ensures
        ({
            let x = es[k];
            let t = access_rows(es);
            let at = granted_to(x);
            &&& listed_answer(t, seq![1u32, 3, 6, 1, 6, 3, 16, 1, 4, 1, 4] + at) == Some(
                ValueView::Integer(if x.context_match == ContextMatch::Exact { 1 } else { 2 }),
            )
            &&& listed_answer(t, seq![1u32, 3, 6, 1, 6, 3, 16, 1, 4, 1, 5] + at) == Some(
                ValueView::OctetString(match x.read_view { Some(n) => n@, None => seq![] }),
            )
            &&& listed_answer(t, seq![1u32, 3, 6, 1, 6, 3, 16, 1, 4, 1, 6] + at) == Some(
                ValueView::OctetString(match x.write_view { Some(n) => n@, None => seq![] }),
            )
            &&& listed_answer(t, seq![1u32, 3, 6, 1, 6, 3, 16, 1, 4, 1, 7] + at) == Some(
                ValueView::OctetString(match x.notify_view { Some(n) => n@, None => seq![] }),
            )
            &&& listed_answer(t, seq![1u32, 3, 6, 1, 6, 3, 16, 1, 4, 1, 8] + at) == Some(
                ValueView::Integer(2),
            )
            &&& listed_answer(t, seq![1u32, 3, 6, 1, 6, 3, 16, 1, 4, 1, 9] + at) == Some(
                ValueView::Integer(1),
            )
        }),
{
    let rows = Seq::new(es.len(), |i: int| access_row(es[i]));
    let ids = Seq::new(es.len(), |i: int| granted_to(es[i]));
    lemma_access_entries_are_listed_rows(es);
    assert forall|r: int, j: int|
        #![trigger rows[r][j]]
        0 <= r <= k && 0 <= j < rows[r].len() implies rows[r][j].0.len() >= 11
            && rows[r][j].0.skip(11) == ids[r] by {
        lemma_access_entries_are_listed_shape(es[r], r);
    }
    assert forall|r: int| 0 <= r < k implies #[trigger] ids[r] != ids[k] by {
        let p = granted_to(es[r]);
        let q = granted_to(es[k]);
        assert(p != q);
    }
    let row = rows[k];
    let at = ids[k];
    lemma_access_entries_are_listed_shape(es[k], k);
    assert(row[0].0 =~= seq![1u32, 3, 6, 1, 6, 3, 16, 1, 4, 1, 4] + at);
    lemma_listed_cell(rows, 11, ids, k, 0);
    assert(row[1].0 =~= seq![1u32, 3, 6, 1, 6, 3, 16, 1, 4, 1, 5] + at);
    lemma_listed_cell(rows, 11, ids, k, 1);
    assert(row[2].0 =~= seq![1u32, 3, 6, 1, 6, 3, 16, 1, 4, 1, 6] + at);
    lemma_listed_cell(rows, 11, ids, k, 2);
    assert(row[3].0 =~= seq![1u32, 3, 6, 1, 6, 3, 16, 1, 4, 1, 7] + at);
    lemma_listed_cell(rows, 11, ids, k, 3);
    assert(row[4].0 =~= seq![1u32, 3, 6, 1, 6, 3, 16, 1, 4, 1, 8] + at);
    lemma_listed_cell(rows, 11, ids, k, 4);
    assert(row[5].0 =~= seq![1u32, 3, 6, 1, 6, 3, 16, 1, 4, 1, 9] + at);
    lemma_listed_cell(rows, 11, ids, k, 5);
}

proof fn lemma_views_are_listed_rows(vs: Seq<(Vec<u8>, VacmView)>)
    ensures
        view_rows(vs) == flat(Seq::new(vs.len(), |i: int| view_row(vs[i]))),
    decreases vs.len(),
{
    let rows = Seq::new(vs.len(), |i: int| view_row(vs[i]));
    if vs.len() > 0 {
        let t = vs.drop_last();
        lemma_views_are_listed_rows(t);
        assert(rows.drop_last() =~= Seq::new(t.len(), |i: int| view_row(t[i])));
        assert(rows.last() == view_row(vs.last()));
        assert(view_rows(vs) == view_rows(t) + rows.last());
    } else {
        assert(view_rows(vs) =~= flat(rows));
    }
}

proof fn lemma_views_are_listed_shape(x: (Vec<u8>, VacmView), i: int)
    ensures
        view_row(x).len() == 4,
        forall|j: int|
            0 <= j < 4 ==> (#[trigger] view_row(x)[j]).0.len() >= 12 && view_row(x)[j].0.skip(12)
                == family_at(x),
{
    let row = view_row(x);
    let ix = family_at(x);
    assert forall|j: int| 0 <= j < 4 implies (#[trigger] row[j]).0.len() >= 12 && row[j].0.skip(
        12,
    ) == ix by {
        if j == 0 {
            assert(row[0].0.skip(12) =~= ix);
        }         else if j == 1 {
            assert(row[1].0.skip(12) =~= ix);
        }         else if j == 2 {
            assert(row[2].0.skip(12) =~= ix);
        }         else {
            assert(row[3].0.skip(12) =~= ix);
        }
    }
}

/// `vacmViewTreeFamilyTable` answers for each family, by its view and subtree, with its mask and
/// whether it is included or excluded.
pub proof fn views_are_listed(vs: Seq<(Vec<u8>, VacmView)>, k: int)
    requires
        0 <= k < vs.len(),
        forall|j: int| 0 <= j < k ==> family_at((#[trigger] vs[j])) != family_at(vs[k]),
    ensures
        ({
            let x = vs[k];
            let t = view_rows(vs);
            let at = family_at(x);
            &&& listed_answer(t, seq![1u32, 3, 6, 1, 6, 3, 16, 1, 5, 2, 1, 3] + at) == Some(
                ValueView::OctetString(x.1.mask@),
            )
            &&& listed_answer(t, seq![1u32, 3, 6, 1, 6, 3, 16, 1, 5, 2, 1, 4] + at) == Some(
                ValueView::Integer(if x.1.typ == ViewTreeFamilyType::Included { 1 } else { 2 }),
            )
            &&& listed_answer(t, seq![1u32, 3, 6, 1, 6, 3, 16, 1, 5, 2, 1, 5] + at) == Some(
                ValueView::Integer(2),
            )
            &&& listed_answer(t, seq![1u32, 3, 6, 1, 6, 3, 16, 1, 5, 2, 1, 6] + at) == Some(
                ValueView::Integer(1),
            )
        }),
{
    let rows = Seq::new(vs.len(), |i: int| view_row(vs[i]));
    let ids = Seq::new(vs.len(), |i: int| family_at(vs[i]));
    lemma_views_are_listed_rows(vs);
    assert forall|r: int, j: int|
        #![trigger rows[r][j]]
        0 <= r <= k && 0 <= j < rows[r].len() implies rows[r][j].0.len() >= 12
            && rows[r][j].0.skip(12) == ids[r] by {
        lemma_views_are_listed_shape(vs[r], r);
    }
    assert forall|r: int| 0 <= r < k implies #[trigger] ids[r] != ids[k] by {
        let p = family_at(vs[r]);
        let q = family_at(vs[k]);
        assert(p != q);
    }
    let row = rows[k];
    let at = ids[k];
    lemma_views_are_listed_shape(vs[k], k);
    assert(row[0].0 =~= seq![1u32, 3, 6, 1, 6, 3, 16, 1, 5, 2, 1, 3] + at);
    lemma_listed_cell(rows, 12, ids, k, 0);
    assert(row[1].0 =~= seq![1u32, 3, 6, 1, 6, 3, 16, 1, 5, 2, 1, 4] + at);
    lemma_listed_cell(rows, 12, ids, k, 1);
    assert(row[2].0 =~= seq![1u32, 3, 6, 1, 6, 3, 16, 1, 5, 2, 1, 5] + at);
    lemma_listed_cell(rows, 12, ids, k, 2);
    assert(row[3].0 =~= seq![1u32, 3, 6, 1, 6, 3, 16, 1, 5, 2, 1, 6] + at);
    lemma_listed_cell(rows, 12, ids, k, 3);
}

proof fn lemma_extensions_are_listed_rows(es: Seq<ExecView>, outcomes: Seq<(i64, String)>)
    ensures
        extend_group(es, outcomes) == flat(
            Seq::new(es.len(), |i: int| extend_row(es[i], outcomes[i].0, outcomes[i].1@)),
        ),
    decreases es.len(),
{
    let rows = Seq::new(es.len(), |i: int| extend_row(es[i], outcomes[i].0, outcomes[i].1@));
    if es.len() > 0 {
        let t = es.drop_last();
        lemma_extensions_are_listed_rows(t, outcomes);
        assert(
            rows.drop_last() =~= Seq::new(
                t.len(),
                |i: int| extend_row(t[i], outcomes[i].0, outcomes[i].1@),
            )
        );
        assert(
            rows.last() == extend_row(
                es.last(),
                outcomes[(es.len() - 1)].0,
                outcomes[(es.len() - 1)].1@,
            )
        );
        assert(extend_group(es, outcomes) == extend_group(t, outcomes) + rows.last());
    } else {
        assert(extend_group(es, outcomes) =~= flat(rows));
    }
}

proof fn lemma_extensions_are_listed_shape(x: ExecView, i: int, outcomes: Seq<(i64, String)>)
    ensures
        extend_row(x, outcomes[i].0, outcomes[i].1@).len() == 5,
        forall|j: int|
            0 <= j < 5
                ==> (#[trigger] extend_row(x, outcomes[i].0, outcomes[i].1@)[j]).0.len() >= 13
                    && extend_row(x, outcomes[i].0, outcomes[i].1@)[j].0.skip(13)
                == spelled(utf8(x.name)),
{
    let row = extend_row(x, outcomes[i].0, outcomes[i].1@);
    let ix = spelled(utf8(x.name));
    assert forall|j: int| 0 <= j < 5 implies (#[trigger] row[j]).0.len() >= 13 && row[j].0.skip(
        13,
    ) == ix by {
        if j == 0 {
            assert(row[0].0.skip(13) =~= ix);
        }         else if j == 1 {
            assert(row[1].0.skip(13) =~= ix);
        }         else if j == 2 {
            assert(row[2].0.skip(13) =~= ix);
        }         else if j == 3 {
            assert(row[3].0.skip(13) =~= ix);
        }         else {
            assert(row[4].0.skip(13) =~= ix);
        }
    }
}

/// The table of extensions answers for each command, by its name, with its command line, its code,
/// the first line of its output, all of it, and the number of its lines.
pub proof fn extensions_are_listed(es: Seq<ExecView>, outcomes: Seq<(i64, String)>, k: int)
    requires
        0 <= k < es.len(),
        forall|j: int| 0 <= j < k ==> spelled(utf8((#[trigger] es[j]).name)) != spelled(
            utf8(es[k].name),
        ),
    ensures
        ({
            let x = es[k];
            let t = extend_group(es, outcomes);
            let at = spelled(utf8(x.name));
            &&& listed_answer(t, seq![1u32, 3, 6, 1, 4, 1, 8072, 1, 3, 2, 3, 1, 1] + at) == Some(
                ValueView::OctetString(
                    utf8(
                        if x.args.len()
                            == 0 { x.command } else { x.command + " "@ + joined(x.args) },
                    ),
                ),
            )
            &&& listed_answer(t, seq![1u32, 3, 6, 1, 4, 1, 8072, 1, 3, 2, 3, 1, 2] + at) == Some(
                ValueView::Integer(outcomes[k].0),
            )
            &&& listed_answer(t, seq![1u32, 3, 6, 1, 4, 1, 8072, 1, 3, 2, 3, 1, 3] + at) == Some(
                ValueView::OctetString(utf8(first_line(outcomes[k].1@))),
            )
            &&& listed_answer(t, seq![1u32, 3, 6, 1, 4, 1, 8072, 1, 3, 2, 3, 1, 4] + at) == Some(
                ValueView::OctetString(utf8(outcomes[k].1@)),
            )
            &&& listed_answer(t, seq![1u32, 3, 6, 1, 4, 1, 8072, 1, 3, 2, 3, 1, 5] + at) == Some(
                ValueView::Integer(lines(outcomes[k].1@).len() as i64),
            )
        }),
{
    let rows = Seq::new(es.len(), |i: int| extend_row(es[i], outcomes[i].0, outcomes[i].1@));
    let ids = Seq::new(es.len(), |i: int| spelled(utf8(es[i].name)));
    lemma_extensions_are_listed_rows(es, outcomes);
    assert forall|r: int, j: int|
        #![trigger rows[r][j]]
        0 <= r <= k && 0 <= j < rows[r].len() implies rows[r][j].0.len() >= 13
            && rows[r][j].0.skip(13) == ids[r] by {
        lemma_extensions_are_listed_shape(es[r], r, outcomes);
    }
    assert forall|r: int| 0 <= r < k implies #[trigger] ids[r] != ids[k] by {
        let p = spelled(utf8(es[r].name));
        let q = spelled(utf8(es[k].name));
        assert(p != q);
    }
    let row = rows[k];
    let at = ids[k];
    lemma_extensions_are_listed_shape(es[k], k, outcomes);
    assert(row[0].0 =~= seq![1u32, 3, 6, 1, 4, 1, 8072, 1, 3, 2, 3, 1, 1] + at);
    lemma_listed_cell(rows, 13, ids, k, 0);
    assert(row[1].0 =~= seq![1u32, 3, 6, 1, 4, 1, 8072, 1, 3, 2, 3, 1, 2] + at);
    lemma_listed_cell(rows, 13, ids, k, 1);
    assert(row[2].0 =~= seq![1u32, 3, 6, 1, 4, 1, 8072, 1, 3, 2, 3, 1, 3] + at);
    lemma_listed_cell(rows, 13, ids, k, 2);
    assert(row[3].0 =~= seq![1u32, 3, 6, 1, 4, 1, 8072, 1, 3, 2, 3, 1, 4] + at);
    lemma_listed_cell(rows, 13, ids, k, 3);
    assert(row[4].0 =~= seq![1u32, 3, 6, 1, 4, 1, 8072, 1, 3, 2, 3, 1, 5] + at);
    lemma_listed_cell(rows, 13, ids, k, 4);
}

proof fn lemma_cached_modules_are_listed_rows(l: Modules)
    ensures
        module_cache_cells(l) == flat(Seq::new(l.len(), |i: int| cache_row(l[i]))),
    decreases l.len(),
{
    let rows = Seq::new(l.len(), |i: int| cache_row(l[i]));
    if l.len() > 0 {
        let t = l.drop_last();
        lemma_cached_modules_are_listed_rows(t);
        assert(rows.drop_last() =~= Seq::new(t.len(), |i: int| cache_row(t[i])));
        assert(rows.last() == cache_row(l.last()));
        assert(module_cache_cells(l) == module_cache_cells(t) + rows.last());
    } else {
        assert(module_cache_cells(l) =~= flat(rows));
    }
}

proof fn lemma_cached_modules_are_listed_shape(x: (Seq<char>, Ttl), i: int)
    ensures
        cache_row(x).len() == 2,
        forall|j: int|
            0 <= j < 2 ==> (#[trigger] cache_row(x)[j]).0.len() >= 12 && cache_row(x)[j].0.skip(12)
                == counted(utf8(x.0)),
{
    let row = cache_row(x);
    let ix = counted(utf8(x.0));
    assert forall|j: int| 0 <= j < 2 implies (#[trigger] row[j]).0.len() >= 12 && row[j].0.skip(
        12,
    ) == ix by {
        if j == 0 {
            assert(row[0].0.skip(12) =~= ix);
        }         else {
            assert(row[1].0.skip(12) =~= ix);
        }
    }
}

/// The table of caches answers for each module, by its name, with its time to live in seconds.
pub proof fn cached_modules_are_listed(l: Modules, k: int)
    requires
        0 <= k < l.len(),
        forall|j: int| k < j < l.len() ==> counted(utf8((#[trigger] l[j]).0)) != counted(
            utf8(l[k].0),
        ),
    ensures
        ({
            let x = l[k];
            let t = module_cache_cells(l);
            let at = counted(utf8(x.0));
            &&& table_answer(t, seq![1u32, 3, 6, 1, 4, 1, 8072, 1, 6, 2, 1, 2] + at) == Some(
                ValueView::Integer(x.1.secs as i64),
            )
            &&& table_answer(t, seq![1u32, 3, 6, 1, 4, 1, 8072, 1, 6, 2, 1, 3] + at) == Some(
                ValueView::Integer(1),
            )
        }),
{
    let rows = Seq::new(l.len(), |i: int| cache_row(l[i]));
    let ids = Seq::new(l.len(), |i: int| counted(utf8(l[i].0)));
    lemma_cached_modules_are_listed_rows(l);
    assert forall|r: int, j: int|
        #![trigger rows[r][j]]
        k <= r < rows.len() && 0 <= j < rows[r].len() implies rows[r][j].0.len() >= 12
            && rows[r][j].0.skip(12) == ids[r] by {
        lemma_cached_modules_are_listed_shape(l[r], r);
    }
    assert forall|r: int| k < r < rows.len() implies #[trigger] ids[r] != ids[k] by {
        let p = counted(utf8(l[r].0));
        let q = counted(utf8(l[k].0));
        assert(p != q);
    }
    let row = rows[k];
    let at = ids[k];
    lemma_cached_modules_are_listed_shape(l[k], k);
    assert(row[0].0 =~= seq![1u32, 3, 6, 1, 4, 1, 8072, 1, 6, 2, 1, 2] + at);
    lemma_row_cell(rows, 12, ids, k, 0);
    assert(row[1].0 =~= seq![1u32, 3, 6, 1, 4, 1, 8072, 1, 6, 2, 1, 3] + at);
    lemma_row_cell(rows, 12, ids, k, 1);
}

proof fn lemma_registered_modules_are_listed_rows(ms: Seq<CellView>)
    ensures
        module_rows(ms) == flat(Seq::new(ms.len(), |i: int| module_row((i + 1) as u32, ms[i]))),
    decreases ms.len(),
{
    let rows = Seq::new(ms.len(), |i: int| module_row((i + 1) as u32, ms[i]));
    if ms.len() > 0 {
        let t = ms.drop_last();
        lemma_registered_modules_are_listed_rows(t);
        assert(rows.drop_last() =~= Seq::new(t.len(), |i: int| module_row((i + 1) as u32, t[i])));
        assert(rows.last() == module_row(((ms.len() - 1) + 1) as u32, ms.last()));
        assert(module_rows(ms) == module_rows(t) + rows.last());
    } else {
        assert(module_rows(ms) =~= flat(rows));
    }
}

proof fn lemma_registered_modules_are_listed_shape(x: CellView, i: int)
    ensures
        module_row((i + 1) as u32, x).len() == 2,
        forall|j: int|
            0 <= j < 2
                ==> (#[trigger] module_row((i + 1) as u32, x)[j]).0.len() >= 11
                    && module_row((i + 1) as u32, x)[j].0.skip(11)
                == seq![(i + 1) as u32],
{
    let row = module_row((i + 1) as u32, x);
    let ix = seq![(i + 1) as u32];
    assert forall|j: int| 0 <= j < 2 implies (#[trigger] row[j]).0.len() >= 11 && row[j].0.skip(
        11,
    ) == ix by {
        if j == 0 {
            assert(row[0].0.skip(11) =~= ix);
        }         else {
            assert(row[1].0.skip(11) =~= ix);
        }
    }
}

/// The table of modules answers for each module, in order, with its root and its name.
pub proof fn registered_modules_are_listed(ms: Seq<CellView>, k: int)
    requires
        0 <= k < ms.len(),
        ms.len() <= u32::MAX,
    ensures
        ({
            let x = ms[k];
            let t = module_rows(ms);
            let at = seq![(k + 1) as u32];
            &&& table_answer(t, seq![1u32, 3, 6, 1, 4, 1, 8072, 1, 5, 1, 1] + at) == Some(
                ValueView::Oid(x.0),
            )
            &&& table_answer(t, seq![1u32, 3, 6, 1, 4, 1, 8072, 1, 5, 1, 2] + at) == Some(x.1)
        }),
{
    let rows = Seq::new(ms.len(), |i: int| module_row((i + 1) as u32, ms[i]));
    let ids = Seq::new(ms.len(), |i: int| seq![(i + 1) as u32]);
    lemma_registered_modules_are_listed_rows(ms);
    assert forall|r: int, j: int|
        #![trigger rows[r][j]]
        k <= r < rows.len() && 0 <= j < rows[r].len() implies rows[r][j].0.len() >= 11
            && rows[r][j].0.skip(11) == ids[r] by {
        lemma_registered_modules_are_listed_shape(ms[r], r);
    }
    assert forall|r: int| k < r < rows.len() implies #[trigger] ids[r] != ids[k] by {
        let p = seq![(r + 1) as u32];
        let q = seq![(k + 1) as u32];
        assert(p[0] != q[0]);
    }
    let row = rows[k];
    let at = ids[k];
    lemma_registered_modules_are_listed_shape(ms[k], k);
    assert(row[0].0 =~= seq![1u32, 3, 6, 1, 4, 1, 8072, 1, 5, 1, 1] + at);
    lemma_row_cell(rows, 11, ids, k, 0);
    assert(row[1].0 =~= seq![1u32, 3, 6, 1, 4, 1, 8072, 1, 5, 1, 2] + at);
    lemma_row_cell(rows, 11, ids, k, 1);
}

proof fn lemma_peer_subtrees_are_listed_rows(subs: Seq<(Seq<u32>, u32)>, peers: Map<u32, SmuxPeer>)
    ensures
        smux_tree_rows(subs, peers) == flat(
            Seq::new(subs.len(), |i: int| smux_tree_row((i + 1) as u32, subs[i], peers)),
        ),
    decreases subs.len(),
{
    let rows = Seq::new(subs.len(), |i: int| smux_tree_row((i + 1) as u32, subs[i], peers));
    if subs.len() > 0 {
        let t = subs.drop_last();
        lemma_peer_subtrees_are_listed_rows(t, peers);
        assert(
            rows.drop_last() =~= Seq::new(
                t.len(),
                |i: int| smux_tree_row((i + 1) as u32, t[i], peers),
            )
        );
        assert(rows.last() == smux_tree_row(((subs.len() - 1) + 1) as u32, subs.last(), peers));
        assert(smux_tree_rows(subs, peers) == smux_tree_rows(t, peers) + rows.last());
    } else {
        assert(smux_tree_rows(subs, peers) =~= flat(rows));
    }
}

proof fn lemma_peer_subtrees_are_listed_shape(x: (Seq<u32>, u32), i: int, peers: Map<u32, SmuxPeer>)
    ensures
        smux_tree_row((i + 1) as u32, x, peers).len() == 3,
        forall|j: int|
            0 <= j < 3
                ==> (#[trigger] smux_tree_row((i + 1) as u32, x, peers)[j]).0.len() >= 11
                    && smux_tree_row((i + 1) as u32, x, peers)[j].0.skip(11)
                == seq![(i + 1) as u32],
{
    let row = smux_tree_row((i + 1) as u32, x, peers);
    let ix = seq![(i + 1) as u32];
    assert forall|j: int| 0 <= j < 3 implies (#[trigger] row[j]).0.len() >= 11 && row[j].0.skip(
        11,
    ) == ix by {
        if j == 0 {
            assert(row[0].0.skip(11) =~= ix);
        }         else if j == 1 {
            assert(row[1].0.skip(11) =~= ix);
        }         else {
            assert(row[2].0.skip(11) =~= ix);
        }
    }
}

proof fn lemma_peer_subtrees_are_listed_under(subs: Seq<(Seq<u32>, u32)>, peers: Map<u32, SmuxPeer>)
    ensures
        all_under(smux_tree_rows(subs, peers), 7, 3),
    decreases subs.len(),
{
    let s = smux_tree_rows(subs, peers);
    if subs.len() > 0 {
        let t = subs.drop_last();
        lemma_peer_subtrees_are_listed_under(t, peers);
        let before = smux_tree_rows(t, peers);
        let row = smux_tree_row(((subs.len() - 1) + 1) as u32, subs.last(), peers);
        assert(s == before + row);
        assert forall|k: int| 0 <= k < s.len() implies (#[trigger] s[k]).0.len() > 7 && s[k].0[7]
            == 3 by {
            if k < before.len() {
                assert(s[k] == before[k]);
            } else {
                assert(s[k] == row[k - before.len()]);
            }
        }
    }
}

/// `smuxTreeTable` answers for each subtree, in order, with its root and the identity of the peer
/// that serves it.
pub proof fn peer_subtrees_are_listed(subs: Seq<(Seq<u32>, u32)>, peers: Map<u32, SmuxPeer>, k: int)
    requires
        0 <= k < subs.len(),
        subs.len() <= u32::MAX,
    ensures
        ({
            let x = subs[k];
            let t = smux_tree_rows(subs, peers);
            let at = seq![(k + 1) as u32];
            &&& table_answer(t, seq![1u32, 3, 6, 1, 2, 1, 20, 3, 1, 1, 1] + at) == Some(
                ValueView::Oid(x.0),
            )
            &&& table_answer(t, seq![1u32, 3, 6, 1, 2, 1, 20, 3, 1, 1, 2] + at) == Some(
                ValueView::Oid(
                    if peers.contains_key(x.1) { peers[x.1].identity@ } else { seq![0u32, 0] },
                ),
            )
            &&& table_answer(t, seq![1u32, 3, 6, 1, 2, 1, 20, 3, 1, 1, 5] + at) == Some(
                ValueView::Integer(1),
            )
        }),
{
    let rows = Seq::new(subs.len(), |i: int| smux_tree_row((i + 1) as u32, subs[i], peers));
    let ids = Seq::new(subs.len(), |i: int| seq![(i + 1) as u32]);
    lemma_peer_subtrees_are_listed_rows(subs, peers);
    assert forall|r: int, j: int|
        #![trigger rows[r][j]]
        k <= r < rows.len() && 0 <= j < rows[r].len() implies rows[r][j].0.len() >= 11
            && rows[r][j].0.skip(11) == ids[r] by {
        lemma_peer_subtrees_are_listed_shape(subs[r], r, peers);
    }
    assert forall|r: int| k < r < rows.len() implies #[trigger] ids[r] != ids[k] by {
        let p = seq![(r + 1) as u32];
        let q = seq![(k + 1) as u32];
        assert(p[0] != q[0]);
    }
    let row = rows[k];
    let at = ids[k];
    lemma_peer_subtrees_are_listed_shape(subs[k], k, peers);
    assert(row[0].0 =~= seq![1u32, 3, 6, 1, 2, 1, 20, 3, 1, 1, 1] + at);
    lemma_row_cell(rows, 11, ids, k, 0);
    assert(row[1].0 =~= seq![1u32, 3, 6, 1, 2, 1, 20, 3, 1, 1, 2] + at);
    lemma_row_cell(rows, 11, ids, k, 1);
    assert(row[2].0 =~= seq![1u32, 3, 6, 1, 2, 1, 20, 3, 1, 1, 5] + at);
    lemma_row_cell(rows, 11, ids, k, 2);
}

/// A target's address is its four octets and its port, the high octet of the port first. What is no
/// address and port is left empty.
pub proof fn target_addresses_are_octets(ip: Ipv4Addr, port: u16, s: Seq<char>)
    ensures
        udp_address_of(ipv4_text(ip) + seq![':'] + decimal(port as nat)) == seq![
            ip.a,
            ip.b,
            ip.c,
            ip.d,
            (port / 256) as u8,
            (port % 256) as u8,
        ],
        lacks(s, ':') ==> udp_address_of(s) == Seq::<u8>::empty(),
{
    let a = ipv4_text(ip);
    let p = decimal(port as nat);
    lemma_decimal(port as nat);
    assert(lacks(p, ':')) by {
        assert forall|i: int| 0 <= i < p.len() implies #[trigger] p[i] != ':' by {
            assert('0' <= p[i] <= '9');
        }
    }
    last_occurrence_is_found(a, ':', p);
    let t = a + seq![':'] + p;
    assert(t.take(a.len() as int) =~= a);
    assert(t.skip(a.len() as int + 1) =~= p);
    ipv4_text_reads_back(ip);
    decimal_reads_back(port as nat, u16::MAX as nat);
    assert(udp_address_of(t) =~= seq![
        ip.a,
        ip.b,
        ip.c,
        ip.d,
        (port / 256) as u8,
        (port % 256) as u8,
    ]);
    if lacks(s, ':') {
        last_occurrence_is_found(a, ':', s);
    }
}

/// `vacmContextTable` answers for each context with its name.
pub proof fn contexts_are_listed(cs: Seq<Vec<u8>>, k: int)
    requires
        0 <= k < cs.len(),
        forall|j: int| 0 <= j < k ==> counted((#[trigger] cs[j])@) != counted(cs[k]@),
    ensures
        listed_answer(
            context_rows(cs),
            seq![1u32, 3, 6, 1, 6, 3, 16, 1, 1, 1] + counted(cs[k]@),
        ) == Some(ValueView::OctetString(cs[k]@)),
{
    let s = context_rows(cs);
    let oid = seq![1u32, 3, 6, 1, 6, 3, 16, 1, 1, 1] + counted(cs[k]@);
    assert forall|j: int| 0 <= j < cs.len() implies (#[trigger] s[j]).0 == seq![
        1u32,
        3,
        6,
        1,
        6,
        3,
        16,
        1,
        1,
        1,
    ] + counted(cs[j]@) by {
        assert(s[j].0 =~= seq![1u32, 3, 6, 1, 6, 3, 16, 1, 1, 1] + counted(cs[j]@));
    }
    assert(s[k].0 == oid);
    assert forall|j: int| 0 <= j < k implies s[j].0 != oid by {
        assert(counted(cs[j]@) != counted(cs[k]@));
        assert(s[j].0.skip(10) =~= counted(cs[j]@));
        assert(oid.skip(10) =~= counted(cs[k]@));
    }
    lemma_find_at(s, oid, k);
    first_listed_cell_answers(s, oid);
}

/// The first scalar of the caches says whether they are in use, and the modules are answered for
/// beside it.
pub proof fn cache_state_is_listed(s: CacheView, oid: Seq<u32>)
    ensures
        ({
            let first = seq![1u32, 3, 6, 1, 4, 1, 8072, 1, 6, 1, 0];
            &&& NsCacheHandler::get_of(s, first) == Some(
                ValueView::Integer(
                    if s.enabled {
                        1
                    } else {
                        2
                    },
                ),
            )
            &&& oid != first ==> NsCacheHandler::get_of(s, oid) == table_answer(
                module_cache_cells(s.modules),
                oid,
            )
        }),
{
    let first = seq![1u32, 3, 6, 1, 4, 1, 8072, 1, 6, 1, 0];
    let t = cache_cells(s);
    let a = t.take(1);
    let b = module_cache_cells(s.modules);
    assert(t =~= a + b);
    assert(a[0].0 =~= first);
    lemma_cache_under(s.modules);
    other_arcs_are_not_answered(b, 9, 2, first);
    later_cells_answer_first(a, b, first);
    last_cell_answers(a, 0);
    later_cells_answer_first(a, b, oid);
    if oid != first {
        tables_answer_for_their_cells(a, oid);
    }
}

proof fn lemma_cache_under(l: Modules)
    ensures
        all_under(module_cache_cells(l), 9, 2),
    decreases l.len(),
{
    if l.len() > 0 {
        let t = l.drop_last();
        lemma_cache_under(t);
        let s = module_cache_cells(l);
        let before = module_cache_cells(t);
        let row = cache_row(l.last());
        assert(s == before + row);
        assert forall|k: int| 0 <= k < s.len() implies (#[trigger] s[k]).0.len() > 9 && s[k].0[9]
            == 2 by {
            if k < before.len() {
                assert(s[k] == before[k]);
            } else {
                assert(s[k] == row[k - before.len()]);
            }
        }
    }
}

/// The time to live of one module does not depend on that of another.
pub proof fn modules_keep_their_own_time(l: Modules, name: Seq<char>, other: Seq<char>, ttl: Ttl)
    ensures
        ttl_of(with_ttl(l, name, ttl), name) == Some(ttl),
        other != name ==> ttl_of(with_ttl(l, name, ttl), other) == ttl_of(l, other),
        ttl_of(without(l, name), name) is None,
        other != name ==> ttl_of(without(l, name), other) == ttl_of(l, other),
{
    lemma_without(l, name, other);
    lemma_with(l, name, other, ttl);
}

proof fn lemma_without(l: Modules, name: Seq<char>, other: Seq<char>)
    ensures
        ttl_of(without(l, name), name) is None,
        other != name ==> ttl_of(without(l, name), other) == ttl_of(l, other),
    decreases l.len(),
{
    if l.len() > 0 {
        let t = l.drop_last();
        lemma_without(t, name, other);
        if l.last().0 != name {
            assert(without(t, name).push(l.last()).drop_last() =~= without(t, name));
        }
    }
}

proof fn lemma_with(l: Modules, name: Seq<char>, other: Seq<char>, ttl: Ttl)
    ensures
        ttl_of(with_ttl(l, name, ttl), name) == Some(ttl),
        other != name ==> ttl_of(with_ttl(l, name, ttl), other) == ttl_of(l, other),
    decreases l.len(),
{
    let m = (name, ttl);
    if l.len() == 0 {
        assert(seq![m].drop_last() =~= Seq::<(Seq<char>, Ttl)>::empty());
        assert(seq![m].last() == m);
        assert(ttl_of(seq![m].drop_last(), other) is None);
    } else {
        let t = l.drop_last();
        lemma_with(t, name, other, ttl);
        if l.last().0 == name {
            assert(t.push(m).drop_last() =~= t);
        } else if name_lt(name, l.last().0) {
            assert(with_ttl(t, name, ttl).push(l.last()).drop_last() =~= with_ttl(t, name, ttl));
        } else {
            assert(l.push(m).drop_last() =~= l);
        }
    }
}

/// The first scalar of the peers is their number, and their subtrees are answered for beside it.
pub proof fn peers_are_counted(s: SmuxServer, oid: Seq<u32>)
    requires
        oid.len() > 7,
    ensures
        table_answer(smux_group(s), seq![1u32, 3, 6, 1, 2, 1, 20, 1, 0]) == Some(
            ValueView::Integer(s.peers@.len() as i64),
        ),
        oid[7] == 3 ==> table_answer(smux_group(s), oid) == table_answer(
            smux_tree_rows(owners(s.subtrees@), s.peers@),
            oid,
        ),
{
    let first = seq![1u32, 3, 6, 1, 2, 1, 20, 1, 0];
    let t = smux_group(s);
    let b = smux_tree_rows(owners(s.subtrees@), s.peers@);
    let a = t.take(1);
    assert(t =~= a + b);
    assert(a[0].0 =~= first);
    lemma_peer_subtrees_are_listed_under(owners(s.subtrees@), s.peers@);
    other_arcs_are_not_answered(b, 7, 3, first);
    later_cells_answer_first(a, b, first);
    last_cell_answers(a, 0);
    later_cells_answer_first(a, b, oid);
    if oid[7] == 3 {
        assert(all_under(a, 7, 1));
        other_arcs_are_not_answered(a, 7, 1, oid);
    }
}

/// The text that an optional one stands for.
pub open spec fn given(a: Option<String>, default: Seq<char>) -> Seq<char> {
    match a {
        Some(x) => x@,
        None => default,
    }
}

/// The description is the system, the host, the version, the long version and the processor, with
/// the kernel's version in place of a version that is not known.
pub proof fn description_has_five_words(f: SystemFacts)
    ensures
        ({
            let kernel = given(f.kernel_version, "unknown"@);
            description_of(f) == given(f.os_name, "Unknown"@) + " "@ + given(
                f.host_name,
                "localhost"@,
            ) + " "@ + given(f.os_version, kernel) + " "@ + given(f.long_os_version, kernel) + " "@
                + f.cpu_arch@
        }),
{
}

/// The system scalars are the description, the object identifier, the uptime in hundredths of a
/// second, the contact, the name, the location and the services; contact, name and location can be
/// set, and nothing else.
#[verifier::rlimit(40)]
pub proof fn system_scalars_are_listed<P: MibHandler>(
    contact: Seq<char>,
    location: Seq<char>,
    f: SystemFacts,
    ms: u64,
)
    ensures
        ({
            let hs = system_states::<P>(contact, location, f, ms);
            let up = vstd::math::min(ms as int / 10, 0xffff_ffff) as u32;
            &&& hs.len() == 7
            &&& AnyHandler::<P>::get_of(hs[0], seq![1u32, 3, 6, 1, 2, 1, 1, 1, 0]) == Some(
                ValueView::OctetString(utf8(description_of(f))),
            )
            &&& AnyHandler::<P>::get_of(hs[1], seq![1u32, 3, 6, 1, 2, 1, 1, 2, 0]) == Some(
                ValueView::Oid(seq![1u32, 3, 6, 1, 4, 1, 8072, 3, 2, 10]),
            )
            &&& AnyHandler::<P>::get_of(hs[2], seq![1u32, 3, 6, 1, 2, 1, 1, 3, 0]) == Some(
                ValueView::TimeTicks(up),
            )
            &&& AnyHandler::<P>::get_of(hs[3], seq![1u32, 3, 6, 1, 2, 1, 1, 4, 0]) == Some(
                ValueView::OctetString(utf8(contact)),
            )
            &&& AnyHandler::<P>::get_of(hs[4], seq![1u32, 3, 6, 1, 2, 1, 1, 5, 0]) == Some(
                ValueView::OctetString(utf8(given(f.host_name, "localhost"@))),
            )
            &&& AnyHandler::<P>::get_of(hs[5], seq![1u32, 3, 6, 1, 2, 1, 1, 6, 0]) == Some(
                ValueView::OctetString(utf8(location)),
            )
            &&& AnyHandler::<P>::get_of(hs[6], seq![1u32, 3, 6, 1, 2, 1, 1, 7, 0]) == Some(
                ValueView::Integer(72),
            )
            &&& (hs[3]->Scalar_0).writable && (hs[4]->Scalar_0).writable
                && (hs[5]->Scalar_0).writable
            &&& !(hs[1]->Scalar_0).writable && !(hs[6]->Scalar_0).writable
        }),
{
    let hs = system_states::<P>(contact, location, f, ms);
    let r = seq![1u32, 3, 6, 1, 2, 1, 1];
    assert((hs[0]->Table_0).cells[0].0 =~= seq![1u32, 3, 6, 1, 2, 1, 1, 1, 0]);
    assert((hs[2]->Table_0).cells[0].0 =~= seq![1u32, 3, 6, 1, 2, 1, 1, 3, 0]);
    lemma_find_at((hs[0]->Table_0).cells, seq![1u32, 3, 6, 1, 2, 1, 1, 1, 0], 0);
    lemma_find_at((hs[2]->Table_0).cells, seq![1u32, 3, 6, 1, 2, 1, 1, 3, 0], 0);
    assert((hs[1]->Scalar_0).instance() =~= seq![1u32, 3, 6, 1, 2, 1, 1, 2, 0]);
    assert((hs[3]->Scalar_0).instance() =~= seq![1u32, 3, 6, 1, 2, 1, 1, 4, 0]);
    assert((hs[4]->Scalar_0).instance() =~= seq![1u32, 3, 6, 1, 2, 1, 1, 5, 0]);
    assert((hs[5]->Scalar_0).instance() =~= seq![1u32, 3, 6, 1, 2, 1, 1, 6, 0]);
    assert((hs[6]->Scalar_0).instance() =~= seq![1u32, 3, 6, 1, 2, 1, 1, 7, 0]);
}

/// The engine's scalars are its identifier, its boots, the seconds since, which wrap around, and
/// the greatest message that it takes.
pub proof fn engine_scalars_are_listed(e: EngineSnapshot)
    ensures
        ({
            let hs = framework_states(e);
            let up = (match e.seconds_up {
                Some(t) => t as int,
                None => 0,
            }) % 0x1_0000_0000;
            &&& hs.len() == 4
            &&& FnHandler::get_of(hs[0], seq![1u32, 3, 6, 1, 6, 3, 10, 2, 1, 1, 0]) == Some(
                ValueView::OctetString(e.engine_id@),
            )
            &&& FnHandler::get_of(hs[1], seq![1u32, 3, 6, 1, 6, 3, 10, 2, 1, 2, 0]) == Some(
                ValueView::Integer(e.engine_boots as i64),
            )
            &&& FnHandler::get_of(hs[2], seq![1u32, 3, 6, 1, 6, 3, 10, 2, 1, 3, 0]) == Some(
                ValueView::Integer(up as i64),
            )
            &&& FnHandler::get_of(hs[3], seq![1u32, 3, 6, 1, 6, 3, 10, 2, 1, 4, 0]) == Some(
                ValueView::Integer(65507),
            )
        }),
{
    let hs = framework_states(e);
    assert(hs[0].cells[0].0 =~= seq![1u32, 3, 6, 1, 6, 3, 10, 2, 1, 1, 0]);
    assert(hs[1].cells[0].0 =~= seq![1u32, 3, 6, 1, 6, 3, 10, 2, 1, 2, 0]);
    assert(hs[2].cells[0].0 =~= seq![1u32, 3, 6, 1, 6, 3, 10, 2, 1, 3, 0]);
    assert(hs[3].cells[0].0 =~= seq![1u32, 3, 6, 1, 6, 3, 10, 2, 1, 4, 0]);
    lemma_find_at(hs[0].cells, hs[0].cells[0].0, 0);
    lemma_find_at(hs[1].cells, hs[1].cells[0].0, 0);
    lemma_find_at(hs[2].cells, hs[2].cells[0].0, 0);
    lemma_find_at(hs[3].cells, hs[3].cells[0].0, 0);
}

/// The serial number counts up with each SET, from its greatest value to zero.
pub proof fn serial_counts_up(v: i32)
    ensures
        v < i32::MAX ==> serial_after(v) == v + 1,
        serial_after(i32::MAX) == 0,
{
}

/// A sampled interface is listed with what was sampled of it: what it has received as received, and
/// what it has sent as sent.
pub proof fn samples_keep_their_counters(f: Interface, n: NetSample, index: u32)
    requires
        is_interface_of(f, n, index),
    ensures
        f.index == index,
        f.stat.name@ == n.name@,
        f.mtu == n.mtu as i64,
        f.phys_address@ == mac_of(n.mac@),
        f.stat.rx_bytes == n.rx_bytes && f.stat.rx_packets == n.rx_packets && f.stat.rx_errs
            == n.rx_errs,
        f.stat.tx_bytes == n.tx_bytes && f.stat.tx_packets == n.tx_packets && f.stat.tx_errs
            == n.tx_errs,
        f.stat.rx_drop == 0 && f.stat.tx_drop == 0 && f.speed_bps == 0,
        f.admin_up && f.oper_up,
        starts_with(n.name@, "lo"@) ==> f.if_type == 24,
        !starts_with(n.name@, "lo"@) ==> f.if_type == 6,
{
}

/// Of filesystems at one place the first is kept; others all are.
pub proof fn mounts_are_kept_once(s: Seq<DiskSample>, d: DiskSample)
    ensures
        ({
            let kept = one_per_mount(s);
            &&& s.len() == 0 ==> kept.len() == 0
            &&& kept.len() > 0 && kept.last().mount@ == d.mount@ ==> one_per_mount(s.push(d))
                == kept
            &&& kept.len() == 0 || kept.last().mount@ != d.mount@ ==> one_per_mount(s.push(d))
                == kept.push(d)
        }),
{
    assert(s.push(d).drop_last() =~= s);
}

} // verus!
