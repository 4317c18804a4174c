//! The MIB modules, and what installs them in a registry.

use vstd::prelude::*;

use crate::any_handler::push_tables;
use crate::any_handler::table_states;
use crate::any_handler::AnyHandler;
use crate::any_handler::AnyState;
use crate::cells::all_rows;
use crate::handler::MibHandler;
use crate::hardware::SensorReadings;
use crate::mibgroup::collector::Snapshot;
use crate::mibgroup::host::BlockDevice;
use crate::mibgroup::host::LocalTime;
use crate::mibgroup::live::LiveState;
use crate::mibgroup::live::LiveView;
use crate::mibgroup::snmp_framework::EngineSnapshot;
use crate::mibgroup::snmp_mib::SnmpCounters;
use crate::mibgroup::sysor::SysOrTable;
use crate::mibgroup::system::SystemFacts;
use crate::mibgroup::ucd::ExecRegistry;
use crate::mibgroup::ucd::ProcStat;
use crate::mibgroup::ucd::StatView;
use crate::mibgroup::usm_stats::UsmStats;
use crate::oid::is_prefix;
use crate::registry::answering;
use crate::registry::handler_states;
use crate::registry::placed_all;
use crate::registry::read;
use crate::registry::Registry;
use crate::registry_laws::has_longer_root;
use crate::registry_laws::last_longest_root_answers;
use crate::scalar::scalar_state;
use crate::scalar::sorted_state;
use crate::scalar::table_state;
use crate::scalar::FnState;
use crate::scalar::ScalarState;
use crate::served::served_at;
use crate::served::served_roots;
use crate::served::ServedScalar;
use crate::sorting::into_reversed;
use crate::value::copy_bytes;
use crate::value::ValueView;

pub mod agent_laws;
pub mod at;
pub mod bridge;
pub mod collector;
pub mod etherlike;
pub mod extend;
pub mod group_laws;
pub mod host;
pub mod host_laws;
pub mod icmp;
pub mod interface_laws;
pub mod interfaces;
pub mod ip;
pub mod kernel_text;
pub mod live;
pub mod lm_sensors;
pub mod mta;
pub mod netsnmp_agent;
pub mod netsnmp_system;
pub mod notify;
pub mod pass;
pub mod pass_laws;
pub mod protocol_laws;
pub mod reporting;
pub mod rmon;
pub mod route;
pub mod sctp;
pub mod set_serial;
pub mod smux_mib;
pub mod snmp_framework;
pub mod snmp_mib;
pub mod snmp_mpd;
pub mod sysor;
pub mod system;
pub mod tcp;
pub mod tunnel;
pub mod ucd;
pub mod ucd_laws;
pub mod udp;
pub mod usm_stats;
pub mod vacm;

verus! {

/// What the system group begins with.
#[derive(Debug)]
pub struct SystemMibConfig {
    /// The contact.
    pub contact: String,
    /// The location.
    pub location: String,
    /// The milliseconds since the start of the agent.
    pub elapsed_ms: u64,
}

impl Default for SystemMibConfig {
    fn default() -> (r: SystemMibConfig)
        ensures
            r.contact@ == "Me <me@example.org>"@,
            r.location@ == "Unknown"@,
            r.elapsed_ms == 0,
    {
        SystemMibConfig {
            contact: "Me <me@example.org>".to_owned(),
            location: "Unknown".to_owned(),
            elapsed_ms: 0,
        }
    }
}

/// The states of the tables that describe a host at a time.
pub open spec fn host_tables(s: Snapshot, st: StatView, now: LocalTime) -> Seq<FnState> {
    let fs = s.interfaces@;
    seq![
        scalar_state(
            interfaces::interfaces_root().push(1),
            ValueView::Integer(fs.len() as i64),
        ),
        table_state(interfaces::interfaces_root().push(2), interfaces::if_rows(fs)),
        table_state(interfaces::if_mib_root(), interfaces::if_x_rows(fs)),
        table_state(host::host_root() + seq![1u32], host::system_cells(s, now)),
        table_state(host::host_root() + seq![2u32], host::storage_group(s)),
        table_state(host::host_root() + seq![3u32], host::device_group(s)),
        table_state(host::host_root() + seq![4u32], host::swrun_group(s.processes@)),
        table_state(host::host_root() + seq![5u32], host::swrun_perf_group(s.processes@)),
        table_state(ucd::ucd_root(), ucd::base_group(s, st)),
    ]
}

/// The states of the handlers of the system, interface, host and UCD groups.
pub open spec fn system_mib_states<P: MibHandler>(
    c: SystemMibConfig,
    facts: SystemFacts,
    s: Snapshot,
    st: StatView,
    now: LocalTime,
) -> Seq<AnyState<P>> {
    system::system_states::<P>(c.contact@, c.location@, facts, c.elapsed_ms) + table_states(
        host_tables(s, st, now),
    )
}

/// Register the handlers of the system, interface, host and UCD groups.
pub fn register_system_mibs<P: MibHandler>(
    registry: &mut Registry<AnyHandler<P>>,
    config: &SystemMibConfig,
    facts: &SystemFacts,
    snapshot: &Snapshot,
    stat: &ProcStat,
)
    requires
        old(registry).wf(),
        snapshot.indexable(),
    ensures
        final(registry).wf(),
        exists|now: LocalTime|
            now.valid() && final(registry).states() == placed_all::<AnyHandler<P>>(
                old(registry).states(),
                #[trigger] system_mib_states::<P>(*config, *facts, *snapshot, stat@, now),
            ),
{
    let _ = register_system_mibs_inner(registry, config, facts, snapshot, stat);
}

/// Whether the handlers serve nothing within the scalar with the given root.
pub open spec fn is_free<P: MibHandler>(hs: Seq<AnyState<P>>, root: Seq<u32>) -> bool {
    forall|j: int|
        0 <= j < hs.len() && is_prefix(
            AnyHandler::<P>::root_of(#[trigger] hs[j]),
            root.push(0),
        ) ==> AnyHandler::<P>::root_of(hs[j]).len() <= root.len()
}

/// Whether handlers serve a scalar: it is the one that answers for its instance.
pub open spec fn serves_scalar<P: MibHandler>(hs: Seq<AnyState<P>>, w: ScalarState) -> bool {
    &&& answering::<AnyHandler<P>>(hs, w.root.push(0)) == Some(AnyState::<P>::Scalar(w))
    &&& served_at(hs, w.root) is Some
    &&& read::<AnyHandler<P>>(hs, w.root.push(0)) == w.value
}

/// The scalars whose values are worth keeping are served after the registration, unless the
/// registry served a subtree within one of them before.
pub proof fn persistables_are_served<P: MibHandler>(
    hs: Seq<AnyState<P>>,
    c: SystemMibConfig,
    facts: SystemFacts,
    s: Snapshot,
    st: StatView,
    now: LocalTime,
    i: int,
)
    requires
        0 <= i < 3,
        is_free(hs, system::kept_roots()[i]),
    ensures
        serves_scalar(
            placed_all::<AnyHandler<P>>(hs, system_mib_states::<P>(c, facts, s, st, now)),
            system::writable_states(c.contact@, c.location@, facts)[i],
        ),
{
    let more = system_mib_states::<P>(c, facts, s, st, now);
    let w = system::writable_states(c.contact@, c.location@, facts)[i];
    let o = w.instance();
    let base = system::system_root();
    let tables = host_tables(s, st, now);
    assert(more[3 + i] == AnyState::<P>::Scalar(w));
    assert(o.take(8) =~= w.root);
    assert forall|j: int|
        0 <= j < more.len() && is_prefix(AnyHandler::<P>::root_of(#[trigger] more[j]), o) implies j
        == 3 + i by {
        let r = AnyHandler::<P>::root_of(more[j]);
        if j < 7 {
            assert(r == base.push((j + 1) as u32));
            assert(o.take(8)[7] == r[7]);
        } else {
            assert(more[j] == AnyState::<P>::Table(tables[j - 7]));
            assert(r == tables[j - 7].root);
            assert(r.len() >= 7);
            assert(o.take(r.len() as int)[6] == o[6]);
            assert(o.take(r.len() as int)[4] == o[4]);
            assert(r[6] == o[6] && r[4] == o[4]);
        }
    }
    assert(!has_longer_root::<AnyHandler<P>>(hs, AnyState::Scalar(w), o));
    last_longest_root_answers::<AnyHandler<P>>(hs, more, 3 + i, o);
}

proof fn lemma_kept_are_served<P: MibHandler>(
    before: Seq<AnyState<P>>,
    after: Seq<AnyState<P>>,
    c: SystemMibConfig,
    facts: SystemFacts,
    s: Snapshot,
    st: StatView,
    kept: Seq<ServedScalar>,
)
    requires
        exists|now: LocalTime|
            now.valid() && after == placed_all::<AnyHandler<P>>(
                before,
                #[trigger] system_mib_states::<P>(c, facts, s, st, now),
            ),
        served_roots(kept) == system::kept_roots(),
    ensures
        kept.len() == 3,
        forall|i: int|
            0 <= i < 3 && is_free(before, (#[trigger] kept[i])@) ==> serves_scalar(
                after,
                system::writable_states(c.contact@, c.location@, facts)[i],
            ),
{
    let now = choose|now: LocalTime|
        now.valid() && after == placed_all::<AnyHandler<P>>(
            before,
            #[trigger] system_mib_states::<P>(c, facts, s, st, now),
        );
    assert(kept.len() == served_roots(kept).len());
    assert forall|i: int| 0 <= i < 3 && is_free(before, (#[trigger] kept[i])@) implies
        serves_scalar(after, system::writable_states(c.contact@, c.location@, facts)[i]) by {
        assert(kept[i]@ == served_roots(kept)[i]);
        persistables_are_served::<P>(before, c, facts, s, st, now, i);
    }
}

/// Register the handlers of the system, interface, host and UCD groups, and give those scalars
/// among them whose values can be set and are worth keeping: contact, name and location. They are
/// the very ones that the registry serves, unless it served a subtree within one of them before.
pub fn register_system_mibs_with_persistables<P: MibHandler>(
    registry: &mut Registry<AnyHandler<P>>,
    config: &SystemMibConfig,
    facts: &SystemFacts,
    snapshot: &Snapshot,
    stat: &ProcStat,
) -> (r: Vec<ServedScalar>)
    requires
        old(registry).wf(),
        snapshot.indexable(),
    ensures
        final(registry).wf(),
        exists|now: LocalTime|
            now.valid() && final(registry).states() == placed_all::<AnyHandler<P>>(
                old(registry).states(),
                #[trigger] system_mib_states::<P>(*config, *facts, *snapshot, stat@, now),
            ),
        served_roots(r@) == system::kept_roots(),
        forall|i: int|
            0 <= i < 3 && is_free(old(registry).states(), (#[trigger] r@[i])@) ==> serves_scalar(
                final(registry).states(),
                system::writable_states(config.contact@, config.location@, *facts)[i],
            ),
{
    let ghost before = registry.states();
    let kept = register_system_mibs_inner(registry, config, facts, snapshot, stat);
    proof {
        lemma_kept_are_served::<P>(
            before,
            registry.states(),
            *config,
            *facts,
            *snapshot,
            stat@,
            kept@,
        );
    }
    kept
}

fn register_system_mibs_inner<P: MibHandler>(
    registry: &mut Registry<AnyHandler<P>>,
    config: &SystemMibConfig,
    facts: &SystemFacts,
    snapshot: &Snapshot,
    stat: &ProcStat,
) -> (r: Vec<ServedScalar>)
    requires
        old(registry).wf(),
        snapshot.indexable(),
    ensures
        final(registry).wf(),
        exists|now: LocalTime|
            now.valid() && final(registry).states() == placed_all::<AnyHandler<P>>(
                old(registry).states(),
                #[trigger] system_mib_states::<P>(*config, *facts, *snapshot, stat@, now),
            ),
        served_roots(r@) == system::kept_roots(),
{
    let (mut handlers, kept) = system::system_handlers_with_persistables::<P>(
        config.contact.as_str(),
        config.location.as_str(),
        facts,
        config.elapsed_ms,
    );
    let fs = snapshot.interfaces.as_slice();
    let tables = vec![
        interfaces::if_number_handler(fs),
        interfaces::if_table_handler(fs),
        interfaces::if_xtable_handler(fs),
        host::hr_system_handler(snapshot),
        host::hr_storage_handler(snapshot),
        host::hr_device_handler(snapshot),
        host::hr_swrun_handler(snapshot),
        host::hr_swrun_perf_handler(snapshot),
        ucd::ucd_handler(snapshot, stat),
    ];
    let ghost before = registry.states();
    let ghost now = choose|now: LocalTime|
        now.valid() && tables@[3].state() == table_state(
            host::host_root() + seq![1u32],
            #[trigger] host::system_cells(*snapshot, now),
        );
    assert(handler_states(tables@) =~= host_tables(*snapshot, stat@, now));
    push_tables(&mut handlers, tables);
    registry.register_all(handlers);
    assert(registry.states() == placed_all::<AnyHandler<P>>(
        before,
        system_mib_states::<P>(*config, *facts, *snapshot, stat@, now),
    ));
    kept
}

/// The states of handlers from outside.
pub open spec fn outside_states<P: MibHandler>(s: Seq<P::State>) -> Seq<AnyState<P>> {
    s.map_values(|x: P::State| AnyState::Outside(x))
}

fn push_outside<P: MibHandler>(out: &mut Vec<AnyHandler<P>>, more: Vec<P>)
    ensures
        handler_states(final(out)@) == handler_states(old(out)@) + outside_states::<P>(
            handler_states(more@),
        ),
{
    let ghost start = handler_states(out@);
    let ghost all = handler_states(more@);
    let ghost hs = more@;
    let mut todo = into_reversed(more);
    let ghost mut n: int = 0;
    assert(start =~= start + outside_states::<P>(all.take(0)));
    while todo.len() > 0
        invariant
            0 <= n <= hs.len(),
            all == handler_states(hs),
            todo@.len() == hs.len() - n,
            forall|i: int| 0 <= i < todo@.len() ==> #[trigger] todo@[i] == hs[hs.len() - 1 - i],
            handler_states(out@) == start + outside_states::<P>(all.take(n)),
        decreases todo@.len(),
    {
        assert(todo@[todo@.len() - 1] == hs[n]);
        if let Some(h) = todo.pop() {
            let ghost before = out@;
            out.push(AnyHandler::Outside(h));
            proof {
                assert(all[n] == h.state());
                assert(handler_states(out@) =~= handler_states(before).push(
                    AnyState::Outside(h.state()),
                ));
                assert(outside_states::<P>(all.take(n + 1)) =~= outside_states::<P>(
                    all.take(n),
                ).push(AnyState::Outside(all[n])));
                assert(handler_states(out@) =~= start + outside_states::<P>(all.take(n + 1)));
                n = n + 1;
            }
        }
    }
    assert(all.take(n) =~= all);
}

/// The states of the extension table, where commands are given, and of the subtrees that commands
/// serve.
pub open spec fn ucd_mib_states<P: MibHandler>(
    commands: Option<ExecRegistry>,
    outcomes: Seq<(i64, String)>,
    passes: Seq<P::State>,
) -> Seq<AnyState<P>> {
    (match commands {
        Some(reg) => table_states(
            seq![
                sorted_state(
                    extend::extend_entry(),
                    extend::extend_group(ucd::exec_views(reg.entries@), outcomes),
                ),
            ],
        ),
        None => seq![],
    }) + outside_states::<P>(passes)
}

/// Register the extension table, for the exit code and the output of each command, and the
/// subtrees that commands serve.
pub fn register_ucd_mibs<P: MibHandler>(
    registry: &mut Registry<AnyHandler<P>>,
    commands: &Option<ExecRegistry>,
    outcomes: &[(i64, String)],
    passes: Vec<P>,
)
    requires
        old(registry).wf(),
        commands matches Some(reg) ==> outcomes@.len() == reg.entries@.len(),
    ensures
        final(registry).wf(),
        final(registry).states() == placed_all::<AnyHandler<P>>(
            old(registry).states(),
            ucd_mib_states::<P>(*commands, outcomes@, handler_states(passes@)),
        ),
{
    let mut handlers: Vec<AnyHandler<P>> = Vec::new();
    let ghost passed = handler_states(passes@);
    if let Some(reg) = commands {
        let h = extend::extend_handler(reg, outcomes);
        let tables = vec![h];
        assert(handler_states(tables@) =~= seq![h.state()]);
        push_tables(&mut handlers, tables);
    }
    push_outside(&mut handlers, passes);
    assert(handler_states(handlers@) =~= ucd_mib_states::<P>(*commands, outcomes@, passed));
    registry.register_all(handlers);
}

/// The states of the further tables of a host, and of the sensors where there are any.
pub open spec fn host_mib_states<P: MibHandler>(
    s: Snapshot,
    disks: Seq<BlockDevice>,
    partitions: Seq<char>,
    hw: Option<SensorReadings>,
) -> Seq<AnyState<P>> {
    let root = host::host_root();
    seq![
        AnyState::Table(FnState { root: root + seq![3u32, 5], cells: seq![] }),
        AnyState::Table(table_state(root + seq![3u32, 6], host::disk_storage_group(disks))),
        AnyState::Table(
            table_state(
                root + seq![3u32, 7],
                host::partition_group(host::listed_partitions(partitions, disks)),
            ),
        ),
        AnyState::Table(
            table_state(root + seq![3u32, 4], host::network_group(s.interfaces@)),
        ),
        AnyState::SwRun(host::swrun_start(s.processes@)),
        AnyState::Table(FnState { root: root + seq![6u32, 3], cells: seq![] }),
    ] + match hw {
        Some(x) => table_states(
            seq![
                table_state(lm_sensors::lm_sensors_root(), lm_sensors::all_sensor_rows(x)),
            ],
        ),
        None => seq![],
    }
}

/// Register the further tables of a host: printers, disks, partitions, networks, the running
/// software whose status can be set, the installed software, and the sensors.
pub fn register_host_mibs<P: MibHandler>(
    registry: &mut Registry<AnyHandler<P>>,
    snapshot: &Snapshot,
    disks: &[BlockDevice],
    partitions: &str,
    hw: &Option<SensorReadings>,
)
    requires
        old(registry).wf(),
        host::partitions_fit(partitions@, disks@),
    ensures
        final(registry).wf(),
        final(registry).states() == placed_all::<AnyHandler<P>>(
            old(registry).states(),
            host_mib_states::<P>(*snapshot, disks@, partitions@, *hw),
        ),
{
    let mut handlers: Vec<AnyHandler<P>> = vec![
        AnyHandler::Table(host::hr_printer_handler()),
        AnyHandler::Table(host::hr_disk_storage_handler(disks)),
        AnyHandler::Table(host::hr_partition_handler(partitions, disks)),
        AnyHandler::Table(host::hr_network_handler(snapshot)),
        AnyHandler::SwRun(host::HrSWRunHandler::new(snapshot)),
        AnyHandler::Table(host::hr_sw_installed_handler()),
    ];
    if let Some(x) = hw {
        let h = lm_sensors::lm_sensors_handler(x);
        let tables = vec![h];
        assert(handler_states(tables@) =~= seq![h.state()]);
        push_tables(&mut handlers, tables);
    }
    assert(handler_states(handlers@) =~= host_mib_states::<P>(
        *snapshot,
        disks@,
        partitions@,
        *hw,
    ));
    registry.register_all(handlers);
}

/// The engine that the framework group describes.
#[derive(Debug)]
pub struct FrameworkMibConfig {
    /// The engine id.
    pub engine_id: Vec<u8>,
    /// How often it has booted.
    pub engine_boots: u32,
    /// The seconds since the boot.
    pub seconds_up: u64,
}

/// The states of the four handlers of an engine that has been up for a number of seconds.
pub open spec fn engine_states(fw: FrameworkMibConfig) -> Seq<FnState> {
    let root = snmp_framework::snmp_engine_root();
    seq![
        scalar_state(root.push(1), ValueView::OctetString(fw.engine_id@)),
        scalar_state(root.push(2), ValueView::Integer(fw.engine_boots as i64)),
        scalar_state(
            root.push(3),
            ValueView::Integer(snmp_framework::engine_time_of(Some(fw.seconds_up)) as i64),
        ),
        scalar_state(root.push(4), ValueView::Integer(snmp_framework::MAX_MESSAGE_SIZE)),
    ]
}

/// The states of the handlers of the engine, its error counters, the dispatch counters, and the
/// subsystems.
pub open spec fn framework_mib_states<P: MibHandler>(
    fw: FrameworkMibConfig,
    sysor: SysOrTable,
    usm: UsmStats,
) -> Seq<AnyState<P>> {
    table_states(engine_states(fw)) + seq![
        AnyState::Live(
            LiveState {
                root: usm_stats::usm_stats_root(),
                source: LiveView::Usm(usm.counts()),
            },
        ),
        AnyState::Live(
            LiveState {
                root: snmp_mpd::snmp_mpd_root(),
                source: LiveView::Mpd(
                    snmp_mpd::SnmpMpdStats { unknown_security_models: 0, invalid_msgs: 0 },
                ),
            },
        ),
        AnyState::Live(
            LiveState { root: sysor::sys_or_entry(), source: LiveView::SysOr(sysor@) },
        ),
    ]
}

/// Register the handlers of the engine, its error counters, the dispatch counters, and the
/// subsystems. The counters and the subsystems are served from then on; `reporting::served_usm`,
/// `reporting::served_mpd` and `reporting::served_sysor` lend them to whoever counts and adds.
pub fn register_framework_mibs<P: MibHandler>(
    registry: &mut Registry<AnyHandler<P>>,
    fw: &FrameworkMibConfig,
    sysor: SysOrTable,
    usm_stats: UsmStats,
)
    requires
        old(registry).wf(),
    ensures
        final(registry).wf(),
        final(registry).states() == placed_all::<AnyHandler<P>>(
            old(registry).states(),
            framework_mib_states::<P>(*fw, sysor, usm_stats),
        ),
{
    let engine = EngineSnapshot {
        engine_id: copy_bytes(fw.engine_id.as_slice()),
        engine_boots: fw.engine_boots,
        seconds_up: Some(fw.seconds_up),
    };
    let ghost to = framework_mib_states::<P>(*fw, sysor, usm_stats);
    let tables = snmp_framework::snmp_framework_handlers(&engine);
    assert(handler_states(tables@) =~= engine_states(*fw));
    let mut handlers: Vec<AnyHandler<P>> = Vec::new();
    push_tables(&mut handlers, tables);
    handlers.push(AnyHandler::Live(usm_stats::usm_stats_handler(usm_stats)));
    handlers.push(AnyHandler::Live(snmp_mpd::snmp_mpd_handler()));
    handlers.push(AnyHandler::Live(sysor::sysor_handler(sysor)));
    assert(handler_states(handlers@) =~= to);
    registry.register_all(handlers);
}

/// The texts of the kernel's network files; empty where there are none.
#[derive(Debug)]
pub struct KernelTexts {
    /// The counters of the protocols.
    pub snmp: String,
    /// The TCP connections.
    pub tcp: String,
    /// The UDP listeners.
    pub udp: String,
    /// The address translations.
    pub arp: String,
    /// The routes.
    pub route: String,
}

/// The counts of a set of counters; zero where there is none.
pub open spec fn counts_of(c: Option<SnmpCounters>) -> Seq<u64> {
    match c {
        Some(x) => x.counts(),
        None => Seq::new(31, |i: int| 0u64),
    }
}

/// The states of the tables of the protocol groups.
pub open spec fn mib2_tables(t: KernelTexts) -> Seq<FnState> {
    seq![
        table_state(tcp::tcp_root(), tcp::tcp_group(t.snmp@, t.tcp@)),
        table_state(udp::udp_root(), udp::udp_group(t.snmp@, t.udp@)),
        table_state(ip::ip_root(), ip::ip_group(t.snmp@, t.arp@)),
        table_state(
            icmp::icmp_root(),
            icmp::icmp_scalar_rows(icmp::icmp_scalars_of(t.snmp@)),
        ),
        table_state(at::at_table_root(), at::at_rows(ip::arp_entries_of(t.arp@))),
        table_state(
            route::route_table_root(),
            all_rows(route::routes_of(kernel_text::below_heading(t.route@))),
        ),
    ]
}

/// The states of the protocol groups.
pub open spec fn mib2_states<P: MibHandler>(t: KernelTexts, counts: Seq<u64>) -> Seq<AnyState<P>> {
    table_states(mib2_tables(t)) + seq![
        AnyState::Live(
            LiveState { root: snmp_mib::snmp_root(), source: LiveView::Counters(counts) },
        ),
        AnyState::Serial(set_serial::SerialState { value: 0 }),
    ]
}

/// Register the protocol groups and the serial number of SET requests. Without counters those of
/// the protocol begin at zero. They are served from then on; `reporting::served_counters` lends
/// them to whoever counts, and `reporting::count_set` counts a SET.
pub fn register_mib2_mibs<P: MibHandler>(
    registry: &mut Registry<AnyHandler<P>>,
    texts: &KernelTexts,
    snmp_counters: Option<SnmpCounters>,
)
    requires
        old(registry).wf(),
    ensures
        final(registry).wf(),
        final(registry).states() == placed_all::<AnyHandler<P>>(
            old(registry).states(),
            mib2_states::<P>(*texts, counts_of(snmp_counters)),
        ),
{
    let ghost to = mib2_states::<P>(*texts, counts_of(snmp_counters));
    let snmp = texts.snmp.as_str();
    let arp = texts.arp.as_str();
    let mut handlers: Vec<AnyHandler<P>> = Vec::new();
    push_tables(&mut handlers, tcp::tcp_handlers(snmp, texts.tcp.as_str()));
    push_tables(&mut handlers, udp::udp_handlers(snmp, texts.udp.as_str()));
    push_tables(&mut handlers, ip::ip_handlers(snmp, arp));
    push_tables(&mut handlers, icmp::icmp_handlers(snmp));
    let more = vec![at::at_handler(arp), route::route_handler(texts.route.as_str())];
    push_tables(&mut handlers, more);
    assert(handler_states(handlers@) =~= table_states::<P>(mib2_tables(*texts)));
    let counters = match snmp_counters {
        Some(c) => c,
        None => SnmpCounters::new(),
    };
    let mut live = snmp_mib::snmp_mib_handlers(counters);
    assert(live@.len() == handler_states(live@).len());
    assert(handler_states(live@)[0] == live@[0].state());
    if let Some(h) = live.pop() {
        handlers.push(AnyHandler::Live(h));
    }
    handlers.push(AnyHandler::Serial(set_serial::set_serial_no_handler()));
    assert(handler_states(handlers@) =~= to);
    registry.register_all(handlers);
}

} // verus!
