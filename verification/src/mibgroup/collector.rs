//! A sample of the host: what the host and interface tables are made of.

use vstd::prelude::*;

use crate::cells::row_number;
use crate::mibgroup::interfaces::IfStat;
use crate::mibgroup::interfaces::Interface;
use crate::oid::lex_lt;
use crate::sorting::into_reversed;
use crate::sorting::is_stable_sort_of;
use crate::sorting::stable_sort;
use crate::sorting::text_before;
use crate::sorting::text_key;
use crate::sorting::Keyed;
use crate::text::begins_with;
use crate::text::chars_of;
use crate::text::parse_unsigned;
use crate::text::split;
use crate::text::split_at_char;
use crate::text::starts_with;
use crate::text::str_eq;
use crate::text::texts;
use crate::text::trim;
use crate::text::trimmed;
use crate::text::unsigned_value;

verus! {

/// The least time between two samples of the host, in milliseconds.
pub const REFRESH_INTERVAL_MS: u64 = 1500;

/// Whether a new sample is due, `elapsed_ms` after the last one.
pub fn refresh_due(elapsed_ms: Option<u64>) -> (r: bool)
    ensures
        r == match elapsed_ms {
            Some(t) => t >= REFRESH_INTERVAL_MS,
            None => true,
        },
{
    match elapsed_ms {
        Some(t) => t >= REFRESH_INTERVAL_MS,
        None => true,
    }
}

/// One processor.
#[derive(Debug)]
pub struct CpuSample {
    /// The name.
    pub name: String,
    /// The load in percent.
    pub usage_pct: i64,
    /// The frequency in MHz (0 when unknown).
    pub freq_mhz: i64,
}

/// One mounted filesystem.
#[derive(Debug)]
pub struct DiskSample {
    /// Where it is mounted.
    pub mount: String,
    /// The type of the filesystem.
    pub fs: String,
    /// The capacity in bytes.
    pub total: u64,
    /// What is available, in bytes.
    pub available: u64,
}

/// One process.
#[derive(Debug)]
pub struct ProcSample {
    /// The process id.
    pub pid: u32,
    /// The short name.
    pub name: String,
    /// The path of the executable, empty when it cannot be read.
    pub path: String,
    /// The resident memory in kilobytes.
    pub mem_kb: i64,
    /// The processor usage in percent.
    pub cpu_pct: i64,
    /// `hrSWRunStatus`.
    pub status: i64,
}

/// One load average: its text with two decimals, and its hundredths.
#[derive(Debug)]
pub struct LoadAvg {
    /// The text, with two decimals.
    pub text: String,
    /// The hundredths, without what is behind them.
    pub hundredths: i64,
}

/// The load averages over 1, 5 and 15 minutes.
#[derive(Debug)]
pub struct LoadAverages {
    /// Over 1 minute.
    pub one: LoadAvg,
    /// Over 5 minutes.
    pub five: LoadAvg,
    /// Over 15 minutes.
    pub fifteen: LoadAvg,
}

/// One network interface as the system reports it.
#[derive(Debug)]
pub struct NetSample {
    /// The name.
    pub name: String,
    /// The hardware address, with colons between its octets.
    pub mac: String,
    /// The largest packet.
    pub mtu: u64,
    /// Total bytes received.
    pub rx_bytes: u64,
    /// Total packets received.
    pub rx_packets: u64,
    /// Receive errors.
    pub rx_errs: u64,
    /// Total bytes transmitted.
    pub tx_bytes: u64,
    /// Total packets transmitted.
    pub tx_packets: u64,
    /// Transmit errors.
    pub tx_errs: u64,
}

/// The host at one point in time.
#[derive(Debug)]
pub struct Snapshot {
    /// The uptime in seconds.
    pub uptime_secs: u64,
    /// The number of processes.
    pub num_processes: i64,
    /// The number of users that are logged in.
    pub num_users: i64,
    /// The physical memory in bytes.
    pub mem_total: u64,
    /// The used physical memory in bytes.
    pub mem_used: u64,
    /// The free physical memory in bytes.
    pub mem_free: u64,
    /// The available physical memory in bytes.
    pub mem_available: u64,
    /// The swap space in bytes.
    pub swap_total: u64,
    /// The used swap space in bytes.
    pub swap_used: u64,
    /// The free swap space in bytes.
    pub swap_free: u64,
    /// The load of all processors in percent.
    pub cpu_global_pct: i64,
    /// The load averages.
    pub load_avg: LoadAverages,
    /// The processors.
    pub cpus: Vec<CpuSample>,
    /// The mounted filesystems.
    pub disks: Vec<DiskSample>,
    /// The processes, by process id.
    pub processes: Vec<ProcSample>,
    /// The interfaces, by index.
    pub interfaces: Vec<Interface>,
}

fn no_load() -> (r: LoadAvg)
    ensures
        r.text@ == "0.00"@,
        r.hundredths == 0,
{
    LoadAvg { text: "0.00".to_owned(), hundredths: 0 }
}

impl Default for Snapshot {
    /// A host of which nothing is known.
    fn default() -> (r: Snapshot)
        ensures
            r.uptime_secs == 0 && r.num_processes == 0 && r.num_users == 0,
            r.mem_total == 0 && r.mem_used == 0 && r.mem_free == 0 && r.mem_available == 0,
            r.swap_total == 0 && r.swap_used == 0 && r.swap_free == 0 && r.cpu_global_pct == 0,
            r.load_avg.one.text@ == "0.00"@ && r.load_avg.one.hundredths == 0,
            r.load_avg.five.text@ == "0.00"@ && r.load_avg.five.hundredths == 0,
            r.load_avg.fifteen.text@ == "0.00"@ && r.load_avg.fifteen.hundredths == 0,
            r.cpus@.len() == 0 && r.disks@.len() == 0,
            r.processes@.len() == 0 && r.interfaces@.len() == 0,
    {
        Snapshot {
            uptime_secs: 0,
            num_processes: 0,
            num_users: 0,
            mem_total: 0,
            mem_used: 0,
            mem_free: 0,
            mem_available: 0,
            swap_total: 0,
            swap_used: 0,
            swap_free: 0,
            cpu_global_pct: 0,
            load_avg: LoadAverages { one: no_load(), five: no_load(), fifteen: no_load() },
            cpus: Vec::new(),
            disks: Vec::new(),
            processes: Vec::new(),
            interfaces: Vec::new(),
        }
    }
}

impl Snapshot {
    /// Whether the processors and filesystems can be numbered in 32 bits.
    pub open spec fn indexable(self) -> bool {
        self.cpus@.len() + self.disks@.len() + 4 <= u32::MAX
    }
}

/// What the system says a process does.
#[derive(Clone, Copy, Debug, PartialEq, Eq, Structural)]
pub enum ProcessStatus {
    /// Idle.
    Idle,
    /// Running.
    Run,
    /// Sleeping.
    Sleep,
    /// Stopped.
    Stop,
    /// Ended, and not yet waited for.
    Zombie,
    /// Traced.
    Tracing,
    /// Dead.
    Dead,
    /// Ending on a fatal signal.
    Wakekill,
    /// Waking up.
    Waking,
    /// Parked.
    Parked,
    /// Blocked by a lock.
    LockBlocked,
    /// In a sleep that cannot be interrupted.
    UninterruptibleDiskSleep,
    /// Anything else.
    Unknown,
}

/// The `hrSWRunStatus` of a process: running(1), runnable(2), notRunnable(3) or invalid(4).
pub open spec fn run_status(status: ProcessStatus) -> i64 {
    match status {
        ProcessStatus::Run => 1,
        ProcessStatus::Stop => 3,
        ProcessStatus::Tracing => 3,
        ProcessStatus::UninterruptibleDiskSleep => 3,
        ProcessStatus::LockBlocked => 3,
        ProcessStatus::Zombie => 4,
        ProcessStatus::Dead => 4,
        _ => 2,
    }
}

/// The `hrSWRunStatus` of a process.
pub fn map_status(status: ProcessStatus) -> (r: i64)
    ensures
        r == run_status(status),
{
    match status {
        ProcessStatus::Run => 1,
        ProcessStatus::Stop => 3,
        ProcessStatus::Tracing => 3,
        ProcessStatus::UninterruptibleDiskSleep => 3,
        ProcessStatus::LockBlocked => 3,
        ProcessStatus::Zombie => 4,
        ProcessStatus::Dead => 4,
        _ => 2,
    }
}

/// Bytes as whole kilobytes.
pub fn kilobytes(bytes: u64) -> (r: i64)
    ensures
        r == bytes / 1024,
{
    (bytes / 1024) as i64
}

impl Keyed for ProcSample {
    open spec fn key(&self) -> Seq<u32> {
        seq![self.pid]
    }

    fn before(&self, other: &ProcSample) -> (r: bool) {
        proof {
            reveal_with_fuel(lex_lt, 2);
        }
        self.pid < other.pid
    }
}

/// The processes by process id.
pub fn gather_processes(found: Vec<ProcSample>) -> (r: Vec<ProcSample>)
    ensures
        is_stable_sort_of(r@, found@),
        r@.len() == found@.len(),
{
    stable_sort(found)
}

impl Keyed for DiskSample {
    open spec fn key(&self) -> Seq<u32> {
        text_key(self.mount@)
    }

    fn before(&self, other: &DiskSample) -> (r: bool) {
        text_before(self.mount.as_str(), other.mount.as_str())
    }
}

/// The filesystems of a list, of neighbours that are mounted at one place only the first.
pub open spec fn one_per_mount(s: Seq<DiskSample>) -> Seq<DiskSample>
    decreases s.len(),
{
    if s.len() == 0 {
        seq![]
    } else {
        let before = one_per_mount(s.drop_last());
        if before.len() > 0 && before.last().mount@ == s.last().mount@ {
            before
        } else {
            before.push(s.last())
        }
    }
}

fn drop_repeated(v: Vec<DiskSample>) -> (r: Vec<DiskSample>)
    ensures
        r@ == one_per_mount(v@),
{
    let ghost all = v@;
    let mut todo = into_reversed(v);
    let mut out: Vec<DiskSample> = Vec::new();
    let ghost mut n: int = 0;
    assert(all.take(0) =~= Seq::<DiskSample>::empty());
    while todo.len() > 0
        invariant
            0 <= n <= all.len(),
            todo@.len() == all.len() - n,
            forall|i: int|
                0 <= i < todo@.len() ==> #[trigger] todo@[i] == all[all.len() - 1 - i],
            out@ == one_per_mount(all.take(n)),
        decreases todo@.len(),
    {
        assert(todo@[todo@.len() - 1] == all[n]);
        if let Some(x) = todo.pop() {
            proof {
                assert(all.take(n + 1).drop_last() =~= all.take(n));
                assert(all.take(n + 1).last() == x);
                n = n + 1;
            }
            let count: usize = out.len();
            if count > 0 && str_eq(out[count - 1].mount.as_str(), x.mount.as_str()) {
            } else {
                out.push(x);
            }
        }
    }
    assert(all.take(n) =~= all);
    out
}

/// The filesystems by where they are mounted, one per place: the first that was found.
pub fn gather_disks(found: Vec<DiskSample>) -> (r: Vec<DiskSample>)
    ensures
        exists|s: Seq<DiskSample>| #[trigger]
            is_stable_sort_of(s, found@) && r@ == one_per_mount(s),
{
    let sorted = stable_sort(found);
    drop_repeated(sorted)
}

/// The octets of a hardware address; empty if a part is no hexadecimal octet.
pub open spec fn strict_octets(parts: Seq<Seq<char>>) -> Option<Seq<u8>>
    decreases parts.len(),
{
    if parts.len() == 0 {
        Some(seq![])
    } else {
        match (strict_octets(parts.drop_last()), unsigned_value(parts.last(), 16, 255)) {
            (Some(before), Some(n)) => Some(before.push(n as u8)),
            _ => None,
        }
    }
}

/// The octets of a hardware address with colons between them; empty if it is none.
pub open spec fn mac_of(s: Seq<char>) -> Seq<u8> {
    match strict_octets(split(trim(s), ':')) {
        Some(b) => b,
        None => seq![],
    }
}

proof fn lemma_strict_prefix(parts: Seq<Seq<char>>, n: int)
    requires
        0 <= n <= parts.len(),
        strict_octets(parts.take(n)) is None,
    ensures
        strict_octets(parts) is None,
    decreases parts.len(),
{
    if n < parts.len() {
        assert(parts.drop_last().take(n) =~= parts.take(n));
        lemma_strict_prefix(parts.drop_last(), n);
    } else {
        assert(parts.take(n) =~= parts);
    }
}

/// Parse a hardware address with colons between its octets; empty if it is none.
pub fn mac_bytes(s: &str) -> (r: Vec<u8>)
    ensures
        r@ == mac_of(s@),
{
    let v = chars_of(s);
    let t = trimmed(v.as_slice());
    let parts = split_at_char(t.as_slice(), ':');
    let ghost all = texts(parts@);
    let mut out: Vec<u8> = Vec::new();
    let mut i: usize = 0;
    proof {
        assert(all.take(0) =~= Seq::<Seq<char>>::empty());
        assert(out@ =~= Seq::<u8>::empty());
    }
    while i < parts.len()
        invariant
            i <= parts@.len(),
            all == texts(parts@),
            all == split(trim(s@), ':'),
            strict_octets(all.take(i as int)) == Some(out@),
        decreases parts@.len() - i,
    {
        proof {
            assert(all.take(i + 1).drop_last() =~= all.take(i as int));
            assert(all.take(i + 1).last() == parts@[i as int]@);
        }
        match parse_unsigned(parts[i].as_slice(), 16, 255) {
            Some(n) => {
                out.push(n as u8);
            },
            None => {
                proof {
                    lemma_strict_prefix(all, i + 1);
                }
                let none: Vec<u8> = Vec::new();
                assert(none@ =~= Seq::<u8>::empty());
                return none;
            },
        }
        i += 1;
    }
    assert(all.take(i as int) =~= all);
    out
}

impl Keyed for NetSample {
    open spec fn key(&self) -> Seq<u32> {
        text_key(self.name@)
    }

    fn before(&self, other: &NetSample) -> (r: bool) {
        text_before(self.name.as_str(), other.name.as_str())
    }
}

/// Whether an interface is the row `index` for what the system reports: a loopback if its name
/// begins with `lo`, else Ethernet; up, and of unknown speed.
pub open spec fn is_interface_of(f: Interface, n: NetSample, index: u32) -> bool {
    &&& f.index == index
    &&& f.if_type == (if starts_with(n.name@, "lo"@) {
        24i64
    } else {
        6i64
    })
    &&& f.mtu == n.mtu as i64
    &&& f.speed_bps == 0
    &&& f.phys_address@ == mac_of(n.mac@)
    &&& f.admin_up
    &&& f.oper_up
    &&& f.stat.name@ == n.name@
    &&& f.stat.rx_bytes == n.rx_bytes
    &&& f.stat.rx_packets == n.rx_packets
    &&& f.stat.rx_errs == n.rx_errs
    &&& f.stat.rx_drop == 0
    &&& f.stat.tx_bytes == n.tx_bytes
    &&& f.stat.tx_packets == n.tx_packets
    &&& f.stat.tx_errs == n.tx_errs
    &&& f.stat.tx_drop == 0
}

fn interface_of(n: &NetSample, index: u32) -> (r: Interface)
    ensures
        is_interface_of(r, *n, index),
{
    let name = chars_of(n.name.as_str());
    let if_type: i64 = if begins_with(name.as_slice(), "lo") {
        24
    } else {
        6
    };
    Interface {
        index,
        if_type,
        mtu: n.mtu as i64,
        speed_bps: 0,
        phys_address: mac_bytes(n.mac.as_str()),
        admin_up: true,
        oper_up: true,
        stat: IfStat {
            name: n.name.clone(),
            rx_bytes: n.rx_bytes,
            rx_packets: n.rx_packets,
            rx_errs: n.rx_errs,
            rx_drop: 0,
            tx_bytes: n.tx_bytes,
            tx_packets: n.tx_packets,
            tx_errs: n.tx_errs,
            tx_drop: 0,
        },
    }
}

/// The interfaces by name, numbered from one.
pub fn gather_interfaces(found: Vec<NetSample>) -> (r: Vec<Interface>)
    ensures
        exists|s: Seq<NetSample>|
            {
                &&& #[trigger] is_stable_sort_of(s, found@)
                &&& r@.len() == s.len()
                &&& forall|i: int|
                    0 <= i < s.len() ==> is_interface_of(
                        #[trigger] r@[i],
                        s[i],
                        (i + 1) as u32,
                    )
            },
{
    let ghost all = found@;
    let sorted = stable_sort(found);
    let mut out: Vec<Interface> = Vec::new();
    let mut i: usize = 0;
    while i < sorted.len()
        invariant
            i <= sorted@.len(),
            out@.len() == i,
            forall|k: int|
                0 <= k < i ==> is_interface_of(#[trigger] out@[k], sorted@[k], (k + 1) as u32),
        decreases sorted@.len() - i,
    {
        let index: u32 = row_number(i);
        out.push(interface_of(&sorted[i], index));
        i += 1;
    }
    assert(is_stable_sort_of(sorted@, all));
    out
}

} // verus!
