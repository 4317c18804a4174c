//! Which subtree each group of instances is registered under, and what can be set there.

use vstd::prelude::*;

use crate::any_handler::table_states;
use crate::any_handler::AnyHandler;
use crate::any_handler::AnyState;
use crate::cells::all_rows;
use crate::cells::find;
use crate::cells::lemma_find_at;
use crate::cells::CellView;
use crate::handler::MibHandler;
use crate::hardware::SensorReadings;
use crate::inet::ipv4_text;
use crate::mibgroup::agent_laws::counted;
use crate::mibgroup::agent_laws::modules_keep_their_own_time;
use crate::mibgroup::at::at_rows;
use crate::mibgroup::at::at_table_root;
use crate::mibgroup::collector::run_status;
use crate::mibgroup::collector::ProcSample;
use crate::mibgroup::collector::ProcessStatus;
use crate::mibgroup::collector::Snapshot;
use crate::mibgroup::engine_states;
use crate::mibgroup::extend::extend_group;
use crate::mibgroup::framework_mib_states;
use crate::mibgroup::host::device_group;
use crate::mibgroup::host::disk_storage_group;
use crate::mibgroup::host::host_root;
use crate::mibgroup::host::listed_partitions;
use crate::mibgroup::host::network_group;
use crate::mibgroup::host::on_disk;
use crate::mibgroup::host::parent_has_longest_name;
use crate::mibgroup::host::parent_of;
use crate::mibgroup::host::partition_group;
use crate::mibgroup::host::partitions_of;
use crate::mibgroup::host::storage_group;
use crate::mibgroup::host::swrun_group;
use crate::mibgroup::host::swrun_perf_group;
use crate::mibgroup::host::swrun_start;
use crate::mibgroup::host::swrun_status;
use crate::mibgroup::host::swrun_verdict;
use crate::mibgroup::host::system_cells;
use crate::mibgroup::host::BlockDevice;
use crate::mibgroup::host::HrSWRunHandler;
use crate::mibgroup::host::LocalTime;
use crate::mibgroup::host::PartitionView;
use crate::mibgroup::host::SwRunState;
use crate::mibgroup::host_mib_states;
use crate::mibgroup::host_tables;
use crate::mibgroup::icmp::icmp_root;
use crate::mibgroup::icmp::icmp_scalar_rows;
use crate::mibgroup::icmp::icmp_scalars_of;
use crate::mibgroup::interfaces::if_mib_root;
use crate::mibgroup::interfaces::if_rows;
use crate::mibgroup::interfaces::if_x_rows;
use crate::mibgroup::interfaces::interfaces_root;
use crate::mibgroup::ip::arp_entries_of;
use crate::mibgroup::ip::arp_row;
use crate::mibgroup::ip::distinct;
use crate::mibgroup::ip::ip_group;
use crate::mibgroup::ip::ip_root;
use crate::mibgroup::ip::names_before;
use crate::mibgroup::ip::ArpLine;
use crate::mibgroup::kernel_text::below_heading;
use crate::mibgroup::live::LiveState;
use crate::mibgroup::live::LiveView;
use crate::mibgroup::lm_sensors::all_sensor_rows;
use crate::mibgroup::mib2_states;
use crate::mibgroup::mib2_tables;
use crate::mibgroup::netsnmp_agent::agent_states;
use crate::mibgroup::netsnmp_agent::arc_bytes;
use crate::mibgroup::netsnmp_agent::index_name;
use crate::mibgroup::netsnmp_agent::module_rows;
use crate::mibgroup::netsnmp_agent::name_lt;
use crate::mibgroup::netsnmp_agent::ns_cache_entry;
use crate::mibgroup::netsnmp_agent::root_cells;
use crate::mibgroup::netsnmp_agent::timed_module;
use crate::mibgroup::netsnmp_agent::ttl_of;
use crate::mibgroup::netsnmp_agent::CacheView;
use crate::mibgroup::netsnmp_agent::NsCacheHandler;
use crate::mibgroup::netsnmp_agent::Ttl;
use crate::mibgroup::notify::notify_rows;
use crate::mibgroup::notify::notify_states;
use crate::mibgroup::notify::params_rows;
use crate::mibgroup::notify::target_rows;
use crate::mibgroup::pass::pass_pair;
use crate::mibgroup::reporting::set_counted;
use crate::mibgroup::route::route_table_root;
use crate::mibgroup::route::routes_of;
use crate::mibgroup::set_serial::set_serial_instance;
use crate::mibgroup::set_serial::SerialState;
use crate::mibgroup::set_serial::SetSerialNoHandler;
use crate::mibgroup::snmp_mib::counter_cells;
use crate::mibgroup::snmp_mib::snmp_root;
use crate::mibgroup::sysor::sys_or_cells;
use crate::mibgroup::sysor::SysOrTable;
use crate::mibgroup::tcp::tcp_group;
use crate::mibgroup::tcp::tcp_root;
use crate::mibgroup::ucd::base_group;
use crate::mibgroup::ucd::exec_line;
use crate::mibgroup::ucd::exec_lines;
use crate::mibgroup::ucd::exec_views;
use crate::mibgroup::ucd::ucd_root;
use crate::mibgroup::ucd::ExecRegistry;
use crate::mibgroup::ucd::StatView;
use crate::mibgroup::ucd_mib_states;
use crate::mibgroup::udp::udp_group;
use crate::mibgroup::udp::udp_root;
use crate::mibgroup::usm_stats::usm_cells;
use crate::mibgroup::usm_stats::UsmStats;
use crate::mibgroup::vacm::access_rows;
use crate::mibgroup::vacm::context_rows;
use crate::mibgroup::vacm::s2g_rows;
use crate::mibgroup::vacm::vacm_states;
use crate::mibgroup::vacm::view_rows;
use crate::mibgroup::FrameworkMibConfig;
use crate::mibgroup::KernelTexts;
use crate::notify::ConfigView;
use crate::oid::is_prefix;
use crate::oid::lex_lt_irreflexive;
use crate::oid::lex_lt_transitive;
use crate::oid::oid_text;
use crate::pdu::ErrorStatus;
use crate::scalar::scalar_state;
use crate::scalar::table_state;
use crate::scalar::FnHandler;
use crate::scalar::FnState;
use crate::sorting::text_key;
use crate::table_laws::listed_answer;
use crate::table_laws::table_answer;
use crate::text::decimal;
use crate::text::signed_decimal;
use crate::text::words;
use crate::text_laws::minus_negates;
use crate::vacm::Vacm;
use crate::value::utf8;
use crate::value::ValueView;

verus! {

/// Whether a table is registered under a root and answers as the table of some cells.
pub open spec fn serves_table(h: FnState, root: Seq<u32>, provided: Seq<CellView>) -> bool {
    h.root == root && forall|oid: Seq<u32>| #[trigger]
        FnHandler::get_of(h, oid) == table_answer(provided, oid)
}

/// Whether a table is registered under a root and answers as some cells that are listed.
pub open spec fn serves_list(h: FnState, root: Seq<u32>, provided: Seq<CellView>) -> bool {
    h.root == root && forall|oid: Seq<u32>| #[trigger]
        FnHandler::get_of(h, oid) == listed_answer(provided, oid)
}

#[verifier::rlimit(40)]
proof fn lemma_sampled(
    hs: Seq<FnState>,
    n: i64,
    a: Seq<CellView>,
    b: Seq<CellView>,
    c: Seq<CellView>,
    d: Seq<CellView>,
    e: Seq<CellView>,
    f: Seq<CellView>,
    g: Seq<CellView>,
    h: Seq<CellView>,
)
    requires
        hs == seq![
            scalar_state(interfaces_root().push(1), ValueView::Integer(n)),
            table_state(interfaces_root().push(2), a),
            table_state(if_mib_root(), b),
            table_state(host_root() + seq![1u32], c),
            table_state(host_root() + seq![2u32], d),
            table_state(host_root() + seq![3u32], e),
            table_state(host_root() + seq![4u32], f),
            table_state(host_root() + seq![5u32], g),
            table_state(ucd_root(), h),
        ],
    ensures
        hs.len() == 9,
        hs[0].root == seq![1u32, 3, 6, 1, 2, 1, 2, 1],
        FnHandler::get_of(hs[0], seq![1u32, 3, 6, 1, 2, 1, 2, 1, 0]) == Some(ValueView::Integer(n)),
        serves_table(hs[1], seq![1u32, 3, 6, 1, 2, 1, 2, 2], a),
        serves_table(hs[2], seq![1u32, 3, 6, 1, 2, 1, 31], b),
        serves_table(hs[3], seq![1u32, 3, 6, 1, 2, 1, 25, 1], c),
        serves_table(hs[4], seq![1u32, 3, 6, 1, 2, 1, 25, 2], d),
        serves_table(hs[5], seq![1u32, 3, 6, 1, 2, 1, 25, 3], e),
        serves_table(hs[6], seq![1u32, 3, 6, 1, 2, 1, 25, 4], f),
        serves_table(hs[7], seq![1u32, 3, 6, 1, 2, 1, 25, 5], g),
        serves_table(hs[8], seq![1u32, 3, 6, 1, 4, 1, 2021], h),
{
    assert(hs[0].root =~= seq![1u32, 3, 6, 1, 2, 1, 2, 1]);
    assert(hs[0].cells[0].0 =~= seq![1u32, 3, 6, 1, 2, 1, 2, 1, 0]);
    lemma_find_at(hs[0].cells, seq![1u32, 3, 6, 1, 2, 1, 2, 1, 0], 0);
    let root = host_root();
    assert(interfaces_root().push(2) =~= seq![1u32, 3, 6, 1, 2, 1, 2, 2]);
    assert(root + seq![1u32] =~= seq![1u32, 3, 6, 1, 2, 1, 25, 1]);
    assert(root + seq![2u32] =~= seq![1u32, 3, 6, 1, 2, 1, 25, 2]);
    assert(root + seq![3u32] =~= seq![1u32, 3, 6, 1, 2, 1, 25, 3]);
    assert(root + seq![4u32] =~= seq![1u32, 3, 6, 1, 2, 1, 25, 4]);
    assert(root + seq![5u32] =~= seq![1u32, 3, 6, 1, 2, 1, 25, 5]);
}

/// The sampled groups stand under their own subtrees: the interfaces under 2 and 31, the host under
/// 25, and the rest under the enterprise.
#[verifier::rlimit(40)]
pub proof fn sampled_groups_have_their_subtrees(s: Snapshot, st: StatView, now: LocalTime)
    ensures
        ({
            let hs = host_tables(s, st, now);
            let fs = s.interfaces@;
            &&& hs.len() == 9
            &&& hs[0].root == seq![1u32, 3, 6, 1, 2, 1, 2, 1]
            &&& FnHandler::get_of(hs[0], seq![1u32, 3, 6, 1, 2, 1, 2, 1, 0]) == Some(
                ValueView::Integer(fs.len() as i64),
            )
            &&& serves_table(hs[1], seq![1u32, 3, 6, 1, 2, 1, 2, 2], if_rows(fs))
            &&& serves_table(hs[2], seq![1u32, 3, 6, 1, 2, 1, 31], if_x_rows(fs))
            &&& serves_table(hs[3], seq![1u32, 3, 6, 1, 2, 1, 25, 1], system_cells(s, now))
            &&& serves_table(hs[4], seq![1u32, 3, 6, 1, 2, 1, 25, 2], storage_group(s))
            &&& serves_table(hs[5], seq![1u32, 3, 6, 1, 2, 1, 25, 3], device_group(s))
            &&& serves_table(hs[6], seq![1u32, 3, 6, 1, 2, 1, 25, 4], swrun_group(s.processes@))
            &&& serves_table(
                hs[7],
                seq![1u32, 3, 6, 1, 2, 1, 25, 5],
                swrun_perf_group(s.processes@),
            )
            &&& serves_table(hs[8], seq![1u32, 3, 6, 1, 4, 1, 2021], base_group(s, st))
        }),
{
    lemma_sampled(
        host_tables(s, st, now),
        s.interfaces@.len() as i64,
        if_rows(s.interfaces@),
        if_x_rows(s.interfaces@),
        system_cells(s, now),
        storage_group(s),
        device_group(s),
        swrun_group(s.processes@),
        swrun_perf_group(s.processes@),
        base_group(s, st),
    );
}

#[verifier::rlimit(40)]
proof fn lemma_protocols(
    hs: Seq<FnState>,
    a: Seq<CellView>,
    b: Seq<CellView>,
    c: Seq<CellView>,
    d: Seq<CellView>,
    e: Seq<CellView>,
    f: Seq<CellView>,
)
    requires
        hs == seq![
            table_state(tcp_root(), a),
            table_state(udp_root(), b),
            table_state(ip_root(), c),
            table_state(icmp_root(), d),
            table_state(at_table_root(), e),
            table_state(route_table_root(), f),
        ],
    ensures
        hs.len() == 6,
        serves_table(hs[0], seq![1u32, 3, 6, 1, 2, 1, 6], a),
        serves_table(hs[1], seq![1u32, 3, 6, 1, 2, 1, 7], b),
        serves_table(hs[2], seq![1u32, 3, 6, 1, 2, 1, 4], c),
        serves_table(hs[3], seq![1u32, 3, 6, 1, 2, 1, 5], d),
        serves_table(hs[4], seq![1u32, 3, 6, 1, 2, 1, 3, 1], e),
        serves_table(hs[5], seq![1u32, 3, 6, 1, 2, 1, 4, 21, 1], f),
{
}

/// The groups that the kernel's text is read for stand under their own subtrees.
#[verifier::rlimit(40)]
pub proof fn protocol_groups_have_their_subtrees(t: KernelTexts)
    ensures
        ({
            let hs = mib2_tables(t);
            &&& hs.len() == 6
            &&& serves_table(hs[0], seq![1u32, 3, 6, 1, 2, 1, 6], tcp_group(t.snmp@, t.tcp@))
            &&& serves_table(hs[1], seq![1u32, 3, 6, 1, 2, 1, 7], udp_group(t.snmp@, t.udp@))
            &&& serves_table(hs[2], seq![1u32, 3, 6, 1, 2, 1, 4], ip_group(t.snmp@, t.arp@))
            &&& serves_table(
                hs[3],
                seq![1u32, 3, 6, 1, 2, 1, 5],
                icmp_scalar_rows(icmp_scalars_of(t.snmp@)),
            )
            &&& serves_table(
                hs[4],
                seq![1u32, 3, 6, 1, 2, 1, 3, 1],
                at_rows(arp_entries_of(t.arp@)),
            )
            &&& serves_table(
                hs[5],
                seq![1u32, 3, 6, 1, 2, 1, 4, 21, 1],
                all_rows(routes_of(below_heading(t.route@))),
            )
        }),
{
    lemma_protocols(
        mib2_tables(t),
        tcp_group(t.snmp@, t.tcp@),
        udp_group(t.snmp@, t.udp@),
        ip_group(t.snmp@, t.arp@),
        icmp_scalar_rows(icmp_scalars_of(t.snmp@)),
        at_rows(arp_entries_of(t.arp@)),
        all_rows(routes_of(below_heading(t.route@))),
    );
}

#[verifier::rlimit(40)]
proof fn lemma_behind<P: MibHandler>(
    hs: Seq<AnyState<P>>,
    tables: Seq<FnState>,
    counts: Seq<u64>,
    oid: Seq<u32>,
)
    requires
        tables.len() == 6,
        hs == table_states::<P>(tables) + seq![
            AnyState::Live(LiveState { root: snmp_root(), source: LiveView::Counters(counts) }),
            AnyState::Serial(SerialState { value: 0 }),
        ],
    ensures
        hs.len() == 8,
        forall|i: int| 0 <= i < 6 ==> #[trigger] hs[i] == AnyState::<P>::Table(tables[i]),
        AnyHandler::<P>::root_of(hs[6]) == seq![1u32, 3, 6, 1, 2, 1, 11],
        AnyHandler::<P>::get_of(hs[6], oid) == table_answer(counter_cells(counts), oid),
        AnyHandler::<P>::root_of(hs[7]) == seq![1u32, 3, 6, 1, 6, 3, 1, 1, 6, 1],
        AnyHandler::<P>::get_of(hs[7], seq![1u32, 3, 6, 1, 6, 3, 1, 1, 6, 1, 0]) == Some(
            ValueView::Integer(0),
        ),
{
    assert(set_serial_at() =~= seq![1u32, 3, 6, 1, 6, 3, 1, 1, 6, 1, 0]);
}

/// Behind them stand the agent's counters and the serial number of SETs, which begins at zero.
#[verifier::rlimit(40)]
pub proof fn counters_and_serial_have_their_subtrees<P: MibHandler>(
    t: KernelTexts,
    counts: Seq<u64>,
    oid: Seq<u32>,
)
    ensures
        ({
            let hs = mib2_states::<P>(t, counts);
            &&& hs.len() == 8
            &&& forall|i: int|
                0 <= i < 6 ==> #[trigger] hs[i] == AnyState::<P>::Table(mib2_tables(t)[i])
            &&& AnyHandler::<P>::root_of(hs[6]) == seq![1u32, 3, 6, 1, 2, 1, 11]
            &&& AnyHandler::<P>::get_of(hs[6], oid) == table_answer(counter_cells(counts), oid)
            &&& AnyHandler::<P>::root_of(hs[7]) == seq![1u32, 3, 6, 1, 6, 3, 1, 1, 6, 1]
            &&& AnyHandler::<P>::get_of(hs[7], seq![1u32, 3, 6, 1, 6, 3, 1, 1, 6, 1, 0]) == Some(
                ValueView::Integer(0),
            )
        }),
{
    protocol_groups_have_their_subtrees(t);
    lemma_behind::<P>(mib2_states::<P>(t, counts), mib2_tables(t), counts, oid);
}

/// The instance of the serial number.
pub open spec fn set_serial_at() -> Seq<u32> {
    set_serial_instance()
}

/// The host's further groups stand under their own subtrees of 25, and the sensors under the
/// enterprise, where there are any.
#[verifier::rlimit(40)]
pub proof fn host_groups_have_their_subtrees<P: MibHandler>(
    s: Snapshot,
    disks: Seq<BlockDevice>,
    partitions: Seq<char>,
    hw: Option<SensorReadings>,
)
    ensures
        ({
            let hs = host_mib_states::<P>(s, disks, partitions, hw);
            let parts = listed_partitions(partitions, disks);
            &&& hs.len() == (if hw is Some {
                7int
            } else {
                6
            })
            &&& AnyHandler::<P>::root_of(hs[0]) == seq![1u32, 3, 6, 1, 2, 1, 25, 3, 5]
            &&& serves_table(
                hs[1]->Table_0,
                seq![1u32, 3, 6, 1, 2, 1, 25, 3, 6],
                disk_storage_group(disks),
            )
            &&& serves_table(
                hs[2]->Table_0,
                seq![1u32, 3, 6, 1, 2, 1, 25, 3, 7],
                partition_group(parts),
            )
            &&& serves_table(
                hs[3]->Table_0,
                seq![1u32, 3, 6, 1, 2, 1, 25, 3, 4],
                network_group(s.interfaces@),
            )
            &&& hs[4] == AnyState::<P>::SwRun(swrun_start(s.processes@))
            &&& AnyHandler::<P>::root_of(hs[5]) == seq![1u32, 3, 6, 1, 2, 1, 25, 6, 3]
            &&& hw is Some ==> serves_table(
                hs[6]->Table_0,
                seq![1u32, 3, 6, 1, 4, 1, 2021, 13],
                all_sensor_rows(hw->0),
            )
        }),
{
    let hs = host_mib_states::<P>(s, disks, partitions, hw);
    assert((hs[0]->Table_0).root =~= seq![1u32, 3, 6, 1, 2, 1, 25, 3, 5]);
    assert((hs[1]->Table_0).root =~= seq![1u32, 3, 6, 1, 2, 1, 25, 3, 6]);
    assert((hs[2]->Table_0).root =~= seq![1u32, 3, 6, 1, 2, 1, 25, 3, 7]);
    assert((hs[3]->Table_0).root =~= seq![1u32, 3, 6, 1, 2, 1, 25, 3, 4]);
    assert((hs[5]->Table_0).root =~= seq![1u32, 3, 6, 1, 2, 1, 25, 6, 3]);
}

/// The running software answers as its table, under its own subtree, and no signal is waiting at
/// first.
pub proof fn running_software_has_its_subtree(ps: Seq<ProcSample>, oid: Seq<u32>)
    ensures
        swrun_start(ps).root == seq![1u32, 3, 6, 1, 2, 1, 25, 4],
        find(swrun_start(ps).cells, oid) == table_answer(swrun_group(ps), oid),
        swrun_start(ps).signals == Seq::<u32>::empty(),
{
    assert(swrun_start(ps).root =~= seq![1u32, 3, 6, 1, 2, 1, 25, 4]);
}

/// Of the running software only the state of a process that is there can be set, to an integer from
/// 1 to 4.
pub proof fn only_process_states_are_set(s: SwRunState, oid: Seq<u32>, v: ValueView, pid: u32)
    ensures
        ({
            let at = seq![1u32, 3, 6, 1, 2, 1, 25, 4, 2, 1, 7, pid];
            let numbers = find(s.cells, at) matches Some(ValueView::Integer(_));
            &&& numbers && (v matches ValueView::Integer(n) && 1 <= n <= 4) ==> swrun_verdict(
                s,
                at,
                v,
            ) is Ok
            &&& numbers && (v matches ValueView::Integer(n) && !(1 <= n <= 4)) ==> swrun_verdict(
                s,
                at,
                v,
            ) == Err::<(), ErrorStatus>(ErrorStatus::WrongValue)
            &&& numbers && !(v is Integer) ==> swrun_verdict(s, at, v) == Err::<(), ErrorStatus>(
                ErrorStatus::WrongType,
            )
            &&& find(s.cells, at) is None ==> swrun_verdict(s, at, v) == Err::<(), ErrorStatus>(
                ErrorStatus::NoCreation,
            )
            &&& oid.len() != 12 || oid[10] != 7 ==> swrun_verdict(s, oid, v) == Err::<
                (),
                ErrorStatus,
            >(ErrorStatus::NotWritable)
        }),
{
    let at = seq![1u32, 3, 6, 1, 2, 1, 25, 4, 2, 1, 7, pid];
    let p = swrun_status();
    assert(at.take(11) =~= p);
    if oid.len() == 12 && is_prefix(p, oid) {
        assert(oid.take(11)[10] == oid[10]);
    }
}

/// What is sampled of a process as its state is told as running, runnable, not runnable or invalid.
pub proof fn process_states_have_numbers()
    ensures
        run_status(ProcessStatus::Run) == 1,
        run_status(ProcessStatus::Sleep) == 2,
        run_status(ProcessStatus::Idle) == 2,
        run_status(ProcessStatus::Stop) == 3,
        run_status(ProcessStatus::Tracing) == 3,
        run_status(ProcessStatus::UninterruptibleDiskSleep) == 3,
        run_status(ProcessStatus::LockBlocked) == 3,
        run_status(ProcessStatus::Zombie) == 4,
        run_status(ProcessStatus::Dead) == 4,
{
}

/// The engine's groups: its scalars, the statistics of security, those of the dispatcher, and the
/// supported modules.
#[verifier::rlimit(40)]
pub proof fn engine_groups_have_their_subtrees<P: MibHandler>(
    fw: FrameworkMibConfig,
    sysor: SysOrTable,
    usm: UsmStats,
    oid: Seq<u32>,
)
    ensures
        ({
            let hs = framework_mib_states::<P>(fw, sysor, usm);
            let es = engine_states(fw);
            &&& hs.len() == 7
            &&& FnHandler::get_of(es[0], seq![1u32, 3, 6, 1, 6, 3, 10, 2, 1, 1, 0]) == Some(
                ValueView::OctetString(fw.engine_id@),
            )
            &&& FnHandler::get_of(es[1], seq![1u32, 3, 6, 1, 6, 3, 10, 2, 1, 2, 0]) == Some(
                ValueView::Integer(fw.engine_boots as i64),
            )
            &&& FnHandler::get_of(es[2], seq![1u32, 3, 6, 1, 6, 3, 10, 2, 1, 3, 0]) == Some(
                ValueView::Integer((fw.seconds_up as int % 0x1_0000_0000) as i64),
            )
            &&& FnHandler::get_of(es[3], seq![1u32, 3, 6, 1, 6, 3, 10, 2, 1, 4, 0]) == Some(
                ValueView::Integer(65507),
            )
            &&& forall|i: int| 0 <= i < 4 ==> #[trigger] hs[i] == AnyState::<P>::Table(es[i])
            &&& AnyHandler::<P>::root_of(hs[4]) == seq![1u32, 3, 6, 1, 6, 3, 15, 1, 1]
            &&& AnyHandler::<P>::get_of(hs[4], oid) == table_answer(usm_cells(usm.counts()), oid)
            &&& AnyHandler::<P>::root_of(hs[5]) == seq![1u32, 3, 6, 1, 6, 3, 11, 2, 1]
            &&& AnyHandler::<P>::root_of(hs[6]) == seq![1u32, 3, 6, 1, 2, 1, 1, 9, 1]
            &&& AnyHandler::<P>::get_of(hs[6], oid) == table_answer(sys_or_cells(sysor@), oid)
        }),
{
    let hs = framework_mib_states::<P>(fw, sysor, usm);
    let es = engine_states(fw);
    assert(es.len() == 4);
    assert forall|i: int| 0 <= i < 4 implies #[trigger] hs[i] == AnyState::<P>::Table(es[i]) by {}
    assert(es[0].cells[0].0 =~= seq![1u32, 3, 6, 1, 6, 3, 10, 2, 1, 1, 0]);
    assert(es[1].cells[0].0 =~= seq![1u32, 3, 6, 1, 6, 3, 10, 2, 1, 2, 0]);
    assert(es[2].cells[0].0 =~= seq![1u32, 3, 6, 1, 6, 3, 10, 2, 1, 3, 0]);
    assert(es[3].cells[0].0 =~= seq![1u32, 3, 6, 1, 6, 3, 10, 2, 1, 4, 0]);
    lemma_find_at(es[0].cells, es[0].cells[0].0, 0);
    lemma_find_at(es[1].cells, es[1].cells[0].0, 0);
    lemma_find_at(es[2].cells, es[2].cells[0].0, 0);
    lemma_find_at(es[3].cells, es[3].cells[0].0, 0);
}

/// The tables of notifications and of access control stand under their own subtrees.
#[verifier::rlimit(40)]
pub proof fn configured_tables_have_their_subtrees(c: ConfigView, v: Vacm)
    ensures
        ({
            let ns = notify_states(c);
            let vs = vacm_states(v);
            &&& ns.len() == 3 && vs.len() == 4
            &&& serves_list(ns[0], seq![1u32, 3, 6, 1, 6, 3, 12, 1, 2, 1], target_rows(c.targets))
            &&& serves_list(ns[1], seq![1u32, 3, 6, 1, 6, 3, 12, 1, 3, 1], params_rows(c.params))
            &&& serves_list(ns[2], seq![1u32, 3, 6, 1, 6, 3, 13, 1, 1, 1], notify_rows(c.notifies))
            &&& serves_list(vs[0], seq![1u32, 3, 6, 1, 6, 3, 16, 1, 1], context_rows(
                v.context_list(),
            ))
            &&& serves_list(vs[1], seq![1u32, 3, 6, 1, 6, 3, 16, 1, 2, 1], s2g_rows(v.group_list()))
            &&& serves_list(
                vs[2],
                seq![1u32, 3, 6, 1, 6, 3, 16, 1, 4, 1],
                access_rows(v.access_list()),
            )
            &&& serves_list(
                vs[3],
                seq![1u32, 3, 6, 1, 6, 3, 16, 1, 5, 2, 1],
                view_rows(v.view_list()),
            )
        }),
{
}

/// Where commands are configured their table stands first, and the subtrees that commands serve
/// stand behind it.
#[verifier::rlimit(40)]
pub proof fn extensions_have_their_subtrees<P: MibHandler>(
    commands: Option<ExecRegistry>,
    outcomes: Seq<(i64, String)>,
    passes: Seq<P::State>,
    k: int,
)
    requires
        0 <= k < passes.len(),
    ensures
        ({
            let hs = ucd_mib_states::<P>(commands, outcomes, passes);
            &&& commands is None ==> hs.len() == passes.len() && hs[k] == AnyState::<P>::Outside(
                passes[k],
            )
            &&& commands is Some ==> hs.len() == passes.len() + 1 && hs[k + 1] == AnyState::<
                P,
            >::Outside(passes[k]) && serves_list(
                hs[0]->Table_0,
                seq![1u32, 3, 6, 1, 4, 1, 8072, 1, 3, 2, 3, 1],
                extend_group(exec_views((commands->0).entries@), outcomes),
            )
        }),
{
}

/// The serial number of SETs can be set to any number that it can have, of any kind of number, and
/// to nothing else.
pub proof fn serial_takes_its_own_range(s: SerialState, n: i64, oid: Seq<u32>, v: ValueView)
    ensures
        ({
            let at = seq![1u32, 3, 6, 1, 6, 3, 1, 1, 6, 1, 0];
            &&& 0 <= n <= i32::MAX <==> SetSerialNoHandler::prepare_of(
                s,
                at,
                ValueView::Integer(n),
            ).1 is Ok
            &&& 0 <= n <= i32::MAX ==> SetSerialNoHandler::commit_of(
                s,
                at,
                ValueView::Integer(n),
            ).0.value == n
            &&& 0 <= n <= i32::MAX ==> SetSerialNoHandler::commit_of(
                s,
                at,
                ValueView::Gauge32(n as u32),
            ).0.value == n
            &&& !(0 <= n <= i32::MAX) ==> SetSerialNoHandler::prepare_of(
                s,
                at,
                ValueView::Integer(n),
            ).1 == Err::<(), ErrorStatus>(ErrorStatus::WrongValue)
            &&& v is OctetString || v is Oid
                ==> SetSerialNoHandler::prepare_of(s, at, v).1 == Err::<
                (),
                ErrorStatus,
            >(ErrorStatus::WrongType)
            &&& oid != at ==> SetSerialNoHandler::prepare_of(s, oid, v).1 == Err::<(), ErrorStatus>(
                ErrorStatus::NoCreation,
            ) && SetSerialNoHandler::get_of(s, oid) is None
            &&& SetSerialNoHandler::get_of(s, at) == Some(ValueView::Integer(s.value as i64))
        }),
{
    assert(set_serial_at() =~= seq![1u32, 3, 6, 1, 6, 3, 1, 1, 6, 1, 0]);
}

/// Every SET that succeeds counts the serial number up, and changes nothing else.
pub proof fn each_set_counts<P: MibHandler>(hs: Seq<AnyState<P>>, i: int)
    requires
        0 <= i < hs.len(),
    ensures
        ({
            let after = set_counted(hs);
            &&& after.len() == hs.len()
            &&& !(hs[i] is Serial) ==> after[i] == hs[i]
            &&& hs[i] matches AnyState::Serial(x) ==> after[i] matches AnyState::Serial(y) && (if
                x.value < i32::MAX {
                y.value == x.value + 1
            } else {
                y.value == 0
            })
        }),
{
}

/// A cache's time to live is set by its name, in whole seconds, and leaves those of the others.
pub proof fn cache_times_are_set(
    s: CacheView,
    oid: Seq<u32>,
    name: Seq<char>,
    other: Seq<char>,
    n: i64,
    v: ValueView,
)
    requires
        timed_module(oid) == Some(name),
    ensures
        n >= 0 <==> NsCacheHandler::prepare_of(s, oid, ValueView::Integer(n)).1 is Ok,
        !(v is Integer) ==> NsCacheHandler::prepare_of(s, oid, v).1 == Err::<(), ErrorStatus>(
            ErrorStatus::WrongType,
        ),
        n >= 0 ==> ({
            let after = NsCacheHandler::commit_of(s, oid, ValueView::Integer(n)).0;
            &&& after.enabled == s.enabled
            &&& ttl_of(after.modules, name) matches Some(t) && t.secs == n && t.nanos == 0
            &&& other != name ==> ttl_of(after.modules, other) == ttl_of(s.modules, other)
        }),
{
    if n >= 0 {
        modules_keep_their_own_time(
            s.modules,
            name,
            other,
            Ttl { secs: n as u64, nanos: 0 },
        );
    }
}

/// A time to live is named by the column and the counted octets of the module's name; nothing else
/// of the caches can be set.
pub proof fn cache_times_are_named(s: CacheView, oid: Seq<u32>, v: ValueView, name: Seq<char>)
    requires
        utf8(name).len() <= u32::MAX,
    ensures
        timed_module(
            seq![1u32, 3, 6, 1, 4, 1, 8072, 1, 6, 2, 1, 2]
                + counted(utf8(name)),
        ) == Some(name),
        oid.len() < 13 || oid[11] != 2 ==> timed_module(oid) is None,
        timed_module(oid) is None ==> NsCacheHandler::prepare_of(s, oid, v).1 == Err::<
            (),
            ErrorStatus,
        >(ErrorStatus::NotWritable),
{
    let p = ns_cache_entry().push(2);
    let ix = counted(utf8(name));
    let at = seq![1u32, 3, 6, 1, 4, 1, 8072, 1, 6, 2, 1, 2] + ix;
    assert(at.take(12) =~= p);
    assert(at.skip(12) =~= ix);
    let b = arc_bytes(ix.skip(1));
    assert(b =~= utf8(name));
    vstd::utf8::encode_utf8_valid_utf8(name);
    vstd::utf8::encode_utf8_decode_utf8(name);
    assert(index_name(ix) == Some(name));
    if oid.len() >= 13 && is_prefix(p, oid) {
        assert(oid.take(12)[11] == oid[11]);
    }
}

/// A line of the partition list that has a number of blocks and the name of a partition makes one
/// entry: on the disk with the longest name that begins its own, numbered among the partitions of
/// that disk. The name of a disk itself makes none.
pub proof fn partition_lines_name_their_disk(
    ls: Seq<Seq<char>>,
    line: Seq<char>,
    names: Seq<Seq<char>>,
    blocks: nat,
)
    requires
        words(line).len() >= 4,
        words(line)[2] == decimal(blocks),
        blocks <= i64::MAX,
        names.len() < u32::MAX,
    ensures
        ({
            let w = words(line);
            let before = partitions_of(ls, names);
            let after = partitions_of(ls.push(line), names);
            let p = parent_of(names, w[3]);
            &&& p is None ==> after == before
            &&& p matches Some(k) ==> if names[k] == w[3] {
                after == before
            } else {
                &&& after.len() == before.len() + 1
                &&& after.drop_last() == before
                &&& after.last().parent == k + 1
                &&& after.last().label == w[3]
                &&& after.last().size == blocks
                &&& after.last().fs_type == Seq::<char>::empty()
                &&& on_disk(before, (k + 1) as u32) < u32::MAX ==> after.last().index == on_disk(
                    before,
                    (k + 1) as u32,
                ) + 1 && after.last().id == utf8(
                    names[k] + decimal((on_disk(before, (k + 1) as u32) + 1) as nat),
                )
            }
        }),
{
    minus_negates(blocks, i64::MIN as int, i64::MAX as int);
    parent_has_longest_name(names, words(line)[3]);
    assert(ls.push(line).drop_last() =~= ls);
    let before = partitions_of(ls, names);
    let after = partitions_of(ls.push(line), names);
    if after.len() > before.len() {
        assert(after.drop_last() =~= before);
    }
}

/// The partitions of a disk are counted, and those of others are not.
pub proof fn partitions_are_counted_by_disk(rows: Seq<PartitionView>, r: PartitionView, d: u32)
    ensures
        on_disk(Seq::empty(), d) == 0,
        r.parent == d ==> on_disk(rows.push(r), d) == on_disk(rows, d) + 1,
        r.parent != d ==> on_disk(rows.push(r), d) == on_disk(rows, d),
{
    assert(rows.push(r).drop_last() =~= rows);
}

/// The lines of a list of commands are read one after the other; those that name none are left out.
pub proof fn command_lines_are_read_in_order(ls: Seq<Seq<char>>, l: Seq<char>)
    ensures
        exec_lines(Seq::empty()).len() == 0,
        exec_line(l) is Some ==> exec_lines(ls.push(l)) == exec_lines(ls).push(exec_line(l)->0),
        exec_line(l) is None ==> exec_lines(ls.push(l)) == exec_lines(ls),
{
    assert(ls.push(l).drop_last() =~= ls);
}

/// A command is told the kind of a value by its name, and the value in decimal, as an address, as
/// an object identifier or as text.
pub proof fn values_are_told_by_kind(n: i64, m: u32, l: u64, v: ValueView, x: Seq<char>)
    ensures
        pass_pair(ValueView::Integer(n)) == ("integer"@, signed_decimal(n as int)),
        pass_pair(ValueView::Gauge32(m)) == ("gauge"@, decimal(m as nat)),
        pass_pair(ValueView::Counter32(m)) == ("counter"@, decimal(m as nat)),
        pass_pair(ValueView::Counter64(l)) == ("counter64"@, decimal(l as nat)),
        pass_pair(ValueView::TimeTicks(m)) == ("timeticks"@, decimal(m as nat)),
        v matches ValueView::IpAddress(ip) ==> pass_pair(v) == ("ipaddress"@, ipv4_text(ip)),
        v matches ValueView::Oid(o) ==> pass_pair(v) == ("objectid"@, oid_text(o)),
        (v matches ValueView::OctetString(b) && b == utf8(x)) ==> pass_pair(v) == ("string"@, x),
        v matches ValueView::Opaque(b) ==> pass_pair(v).0 == "opaque"@,
{
    vstd::utf8::encode_utf8_valid_utf8(x);
    vstd::utf8::encode_utf8_decode_utf8(x);
}

/// Setting the state of a process to invalid asks for a signal to that process, and to no other;
/// other states ask for none. The table itself does not change.
pub proof fn invalid_state_asks_for_a_signal(s: SwRunState, pid: u32, v: ValueView)
    ensures
        ({
            let at = seq![1u32, 3, 6, 1, 2, 1, 25, 4, 2, 1, 7, pid];
            let after = HrSWRunHandler::commit_of(s, at, v).0;
            &&& HrSWRunHandler::commit_of(s, at, v).1 is Ok
            &&& after.cells == s.cells && after.root == s.root
            &&& v == ValueView::Integer(4) && pid > 0 ==> after.signals == s.signals.push(pid)
            &&& v != ValueView::Integer(4) || pid == 0 ==> after.signals == s.signals
        }),
{
    let at = seq![1u32, 3, 6, 1, 2, 1, 25, 4, 2, 1, 7, pid];
    assert(at.last() == pid);
}

/// The agent's own groups stand under their own subtrees of the enterprise: the caches, the scalars
/// of debugging and of logging, and the modules.
#[verifier::rlimit(40)]
pub proof fn agent_groups_have_their_subtrees<P: MibHandler>(c: CacheView, ms: Seq<CellView>)
    ensures
        ({
            let hs = agent_states::<P>(c, ms);
            &&& hs.len() == 9
            &&& hs[0] == AnyState::<P>::Cache(c)
            &&& AnyHandler::<P>::root_of(hs[0]) == seq![1u32, 3, 6, 1, 4, 1, 8072, 1, 6]
            &&& AnyHandler::<P>::get_of(hs[1], seq![1u32, 3, 6, 1, 4, 1, 8072, 1, 3, 1, 0]) == Some(
                ValueView::OctetString(utf8("net-snmp-rs debug (level=0)"@)),
            )
            &&& AnyHandler::<P>::get_of(hs[2], seq![1u32, 3, 6, 1, 4, 1, 8072, 1, 3, 2, 0]) == Some(
                ValueView::Integer(2),
            )
            &&& AnyHandler::<P>::root_of(hs[3]) == seq![1u32, 3, 6, 1, 4, 1, 8072, 1, 3, 4, 1]
            &&& AnyHandler::<P>::get_of(hs[4], seq![1u32, 3, 6, 1, 4, 1, 8072, 1, 7, 1, 0]) == Some(
                ValueView::OctetString(utf8("net-snmp-rs logging"@)),
            )
            &&& AnyHandler::<P>::root_of(hs[5]) == seq![1u32, 3, 6, 1, 4, 1, 8072, 1, 7, 2, 1]
            &&& serves_table(
                hs[6]->Table_0,
                seq![1u32, 3, 6, 1, 4, 1, 8072, 1, 5, 1],
                module_rows(ms),
            )
            &&& AnyHandler::<P>::root_of(hs[7]) == seq![1u32, 3, 6, 1, 4, 1, 8072, 1, 8, 1]
            &&& AnyHandler::<P>::root_of(hs[8]) == seq![1u32, 3, 6, 1, 4, 1, 8072, 1, 9, 1]
        }),
{
    let hs = agent_states::<P>(c, ms);
    let a = (hs[1]->Table_0).cells;
    let b = (hs[2]->Table_0).cells;
    let d = (hs[4]->Table_0).cells;
    assert(a[0].0 =~= seq![1u32, 3, 6, 1, 4, 1, 8072, 1, 3, 1, 0]);
    assert(b[0].0 =~= seq![1u32, 3, 6, 1, 4, 1, 8072, 1, 3, 2, 0]);
    assert(d[0].0 =~= seq![1u32, 3, 6, 1, 4, 1, 8072, 1, 7, 1, 0]);
    lemma_find_at(a, a[0].0, 0);
    lemma_find_at(b, b[0].0, 0);
    lemma_find_at(d, d[0].0, 0);
    assert((hs[3]->Table_0).root =~= seq![1u32, 3, 6, 1, 4, 1, 8072, 1, 3, 4, 1]);
    assert((hs[5]->Table_0).root =~= seq![1u32, 3, 6, 1, 4, 1, 8072, 1, 7, 2, 1]);
    assert((hs[7]->Table_0).root =~= seq![1u32, 3, 6, 1, 4, 1, 8072, 1, 8, 1]);
    assert((hs[8]->Table_0).root =~= seq![1u32, 3, 6, 1, 4, 1, 8072, 1, 9, 1]);
}

/// A module is listed by its root, which is also its name in text.
pub proof fn modules_are_named_by_their_roots<H: MibHandler>(hs: Seq<H>, i: int)
    requires
        0 <= i < hs.len(),
    ensures
        root_cells(hs).len() == hs.len(),
        root_cells(hs)[i].0 == H::root_of(hs[i].state()),
        root_cells(hs)[i].1 == ValueView::OctetString(utf8(oid_text(H::root_of(hs[i].state())))),
{
}

proof fn lemma_names_before(names: Seq<Seq<char>>, a: Seq<char>, b: Seq<char>)
    requires
        name_lt(a, b),
    ensures
        names_before(names, a) <= names_before(names, b),
        names.contains(a) ==> names_before(names, a) < names_before(names, b),
    decreases names.len(),
{
    if names.len() > 0 {
        let t = names.drop_last();
        lemma_names_before(t, a, b);
        let x = names.last();
        if name_lt(x, a) {
            lex_lt_transitive(text_key(x), text_key(a), text_key(b));
        }
        lex_lt_irreflexive(text_key(a));
        if names.contains(a) && x != a {
            let i = choose|i: int| 0 <= i < names.len() && names[i] == a;
            assert(t[i] == a);
        }
    }
}

proof fn lemma_names_before_bound(names: Seq<Seq<char>>, a: Seq<char>)
    ensures
        names_before(names, a) <= names.len(),
        names.contains(a) ==> names_before(names, a) < names.len(),
    decreases names.len(),
{
    if names.len() > 0 {
        let t = names.drop_last();
        lemma_names_before_bound(t, a);
        lex_lt_irreflexive(text_key(a));
        if names.contains(a) && names.last() != a {
            let i = choose|i: int| 0 <= i < names.len() && names[i] == a;
            assert(t[i] == a);
        }
    }
}

/// Neighbours are numbered by their devices, from one, in the order of the devices' names: the
/// same device has the same number, and a later name a greater one.
pub proof fn neighbours_are_numbered_by_device(a: ArpLine, b: ArpLine, names: Seq<Seq<char>>)
    requires
        names.contains(a.device),
        names.contains(b.device),
        names.len() < u32::MAX,
    ensures
        1 <= arp_row(a, names).if_index <= names.len(),
        a.device == b.device ==> arp_row(a, names).if_index == arp_row(b, names).if_index,
        name_lt(a.device, b.device) ==> arp_row(a, names).if_index < arp_row(b, names).if_index,
        arp_row(a, names).phys_address == a.phys_address,
        arp_row(a, names).net_address == a.net_address,
        arp_row(a, names).media_type == a.media_type,
{
    lemma_names_before_bound(names, a.device);
    lemma_names_before_bound(names, b.device);
    if name_lt(a.device, b.device) {
        lemma_names_before(names, a.device, b.device);
    }
}

/// The devices of the neighbours are taken once each.
pub proof fn devices_are_taken_once(names: Seq<Seq<char>>, i: int, j: int)
    requires
        0 <= i < names.len(),
    ensures
        distinct(names).contains(names[i]),
        distinct(names).len() <= names.len(),
        0 <= j < distinct(names).len() ==> names.contains(distinct(names)[j]),
        distinct(names).no_duplicates(),
    decreases names.len(),
{
    let t = names.drop_last();
    let d = distinct(t);
    let r = distinct(names);
    if t.len() > 0 {
        let k = if i < t.len() {
            i
        } else {
            0
        };
        devices_are_taken_once(t, k, j);
        if i < t.len() {
            assert(t[i] == names[i]);
            let q = choose|q: int| 0 <= q < d.len() && d[q] == names[i];
            assert(r[q] == names[i]);
        }
        if 0 <= j < d.len() {
            assert(r[j] == d[j]);
            let q = choose|q: int| 0 <= q < t.len() && t[q] == d[j];
            assert(names[q] == d[j]);
        }
    }
    if d.contains(names.last()) {
        assert(r == d);
    } else {
        assert(r == d.push(names.last()));
        assert(r[d.len() as int] == names.last());
        assert(names[names.len() - 1] == names.last());
    }
}

} // verus!
