//! The UCD groups: memory, load, disks, processor statistics, version, and the checks of
//! commands, processes, files and logs.

use vstd::prelude::*;

use crate::cells::append_cells;
use crate::cells::cell;
use crate::cells::cells;
use crate::cells::collect_cells;
use crate::cells::is_table_of;
use crate::cells::push_row_cell;
use crate::cells::row_number;
use crate::cells::CellView;
use crate::config::lowered;
use crate::config::same_string;
use crate::handler::MibHandler;
use crate::mibgroup::collector::DiskSample;
use crate::mibgroup::collector::LoadAvg;
use crate::mibgroup::collector::ProcSample;
use crate::mibgroup::collector::Snapshot;
use crate::mibgroup::host::used_bytes;
use crate::oid::Oid;
use crate::scalar::table_state;
use crate::scalar::FnHandler;
use crate::text::bytes_text;
use crate::text::chars_are;
use crate::text::chars_of;
use crate::text::decimal;
use crate::text::lines;
use crate::text::parse_unsigned;
use crate::text::push_decimal;
use crate::text::push_signed;
use crate::text::signed_decimal;
use crate::text::split_lines;
use crate::text::split_words;
use crate::text::starts_with;
use crate::text::string_of;
use crate::text::strings;
use crate::text::text_of_bytes;
use crate::text::texts;
use crate::text::trim;
use crate::text::trimmed;
use crate::text::unsigned_value;
use crate::text::utf8_text;
use crate::text::words;
use crate::value::text_value;
use crate::value::utf8;
use crate::value::Value;
use crate::value::ValueView;

verus! {

/// The version of this package.
pub const VERSION: &'static str = "0.1.0";

/// The root of the UCD groups.
pub open spec fn ucd_root() -> Seq<u32> {
    seq![1u32, 3, 6, 1, 4, 1, 2021]
}

/// Bytes as kilobytes, at most the greatest `Integer32`.
pub open spec fn kib_of(bytes: int) -> i64 {
    if bytes / 1024 > i32::MAX {
        i32::MAX as i64
    } else {
        (bytes / 1024) as i64
    }
}

fn kib(bytes: u128) -> (r: i64)
    ensures
        r == kib_of(bytes as int),
{
    if bytes / 1024 > i32::MAX as u128 {
        i32::MAX as i64
    } else {
        (bytes / 1024) as i64
    }
}

/// The cells of the memory group.
pub open spec fn memory_group(s: Snapshot) -> Seq<CellView> {
    let e = ucd_root().push(4);
    seq![
        cell(e, 3, 0, ValueView::Integer(kib_of(s.swap_total as int))),
        cell(e, 4, 0, ValueView::Integer(kib_of(s.swap_free as int))),
        cell(e, 5, 0, ValueView::Integer(kib_of(s.mem_total as int))),
        cell(e, 6, 0, ValueView::Integer(kib_of(s.mem_available as int))),
        cell(e, 11, 0, ValueView::Integer(kib_of(s.mem_free + s.swap_free))),
    ]
}

fn push_memory_cells(out: &mut Vec<(Oid, Value)>, snap: &Snapshot)
    ensures
        cells(final(out)@) == cells(old(out)@) + memory_group(*snap),
{
    let e: [u32; 8] = [1, 3, 6, 1, 4, 1, 2021, 4];
    assert(e@ =~= ucd_root().push(4));
    let ghost before = cells(out@);
    let free: u128 = snap.mem_free as u128 + snap.swap_free as u128;
    push_row_cell(out, &e, 3, 0, Value::Integer(kib(snap.swap_total as u128)));
    push_row_cell(out, &e, 4, 0, Value::Integer(kib(snap.swap_free as u128)));
    push_row_cell(out, &e, 5, 0, Value::Integer(kib(snap.mem_total as u128)));
    push_row_cell(out, &e, 6, 0, Value::Integer(kib(snap.mem_available as u128)));
    push_row_cell(out, &e, 11, 0, Value::Integer(kib(free)));
    assert(cells(out@) =~= before + memory_group(*snap));
}

/// The row prefix of the load table.
pub open spec fn la_entry() -> Seq<u32> {
    seq![1u32, 3, 6, 1, 4, 1, 2021, 10, 1]
}

/// The cells of one load average.
pub open spec fn la_row(index: u32, name: Seq<char>, load: LoadAvg) -> Seq<CellView> {
    let e = la_entry();
    seq![
        cell(e, 1, index, ValueView::Integer(index as i64)),
        cell(e, 2, index, ValueView::OctetString(utf8(name))),
        cell(e, 3, index, ValueView::OctetString(utf8(load.text@))),
        cell(e, 5, index, ValueView::Integer(load.hundredths)),
    ]
}

/// The cells of the load table.
pub open spec fn la_group(s: Snapshot) -> Seq<CellView> {
    la_row(1, "Load-1"@, s.load_avg.one) + la_row(2, "Load-5"@, s.load_avg.five) + la_row(
        3,
        "Load-15"@,
        s.load_avg.fifteen,
    )
}

fn push_la_row(out: &mut Vec<(Oid, Value)>, index: u32, name: &str, load: &LoadAvg)
    ensures
        cells(final(out)@) == cells(old(out)@) + la_row(index, name@, *load),
{
    let e: [u32; 9] = [1, 3, 6, 1, 4, 1, 2021, 10, 1];
    assert(e@ =~= la_entry());
    let ghost before = cells(out@);
    push_row_cell(out, &e, 1, index, Value::Integer(index as i64));
    push_row_cell(out, &e, 2, index, text_value(name));
    push_row_cell(out, &e, 3, index, text_value(load.text.as_str()));
    push_row_cell(out, &e, 5, index, Value::Integer(load.hundredths));
    assert(cells(out@) =~= before + la_row(index, name@, *load));
}

/// The row prefix of the disk table.
pub open spec fn dsk_entry() -> Seq<u32> {
    seq![1u32, 3, 6, 1, 4, 1, 2021, 9, 1]
}

/// The used part of a filesystem in percent.
pub open spec fn used_percent(d: DiskSample) -> int {
    if d.total > 0 {
        used_bytes(d) * 100 / d.total as int
    } else {
        0
    }
}

/// The cells of one filesystem.
pub open spec fn dsk_row(index: u32, d: DiskSample) -> Seq<CellView> {
    let e = dsk_entry();
    seq![
        cell(e, 1, index, ValueView::Integer(index as i64)),
        cell(e, 2, index, ValueView::OctetString(utf8(d.mount@))),
        cell(e, 3, index, ValueView::OctetString(utf8(d.fs@))),
        cell(e, 6, index, ValueView::Integer(kib_of(d.total as int))),
        cell(e, 7, index, ValueView::Integer(kib_of(d.available as int))),
        cell(e, 8, index, ValueView::Integer(kib_of(used_bytes(d)))),
        cell(e, 9, index, ValueView::Integer(used_percent(d) as i64)),
    ]
}

/// The cells of the disk table, row by row.
pub open spec fn dsk_group(ds: Seq<DiskSample>) -> Seq<CellView>
    decreases ds.len(),
{
    if ds.len() == 0 {
        seq![]
    } else {
        dsk_group(ds.drop_last()) + dsk_row(ds.len() as u32, ds.last())
    }
}

/// The used part of a filesystem is between nothing and all of it.
pub proof fn percent_is_a_percentage(d: DiskSample)
    ensures
        0 <= used_percent(d) <= 100,
{
    if d.total > 0 {
        let u = used_bytes(d);
        let t = d.total as int;
        assert(0 <= u * 100 / t <= 100) by (nonlinear_arith)
            requires
                0 <= u <= t,
                t > 0,
        ;
    }
}

fn push_dsk_row(out: &mut Vec<(Oid, Value)>, index: u32, d: &DiskSample)
    ensures
        cells(final(out)@) == cells(old(out)@) + dsk_row(index, *d),
{
    let e: [u32; 9] = [1, 3, 6, 1, 4, 1, 2021, 9, 1];
    assert(e@ =~= dsk_entry());
    let ghost before = cells(out@);
    let used: u64 = if d.total >= d.available {
        d.total - d.available
    } else {
        0
    };
    proof {
        percent_is_a_percentage(*d);
    }
    let percent: i64 = if d.total > 0 {
        (used as u128 * 100 / d.total as u128) as i64
    } else {
        0
    };
    push_row_cell(out, &e, 1, index, Value::Integer(index as i64));
    push_row_cell(out, &e, 2, index, text_value(d.mount.as_str()));
    push_row_cell(out, &e, 3, index, text_value(d.fs.as_str()));
    push_row_cell(out, &e, 6, index, Value::Integer(kib(d.total as u128)));
    push_row_cell(out, &e, 7, index, Value::Integer(kib(d.available as u128)));
    push_row_cell(out, &e, 8, index, Value::Integer(kib(used as u128)));
    push_row_cell(out, &e, 9, index, Value::Integer(percent));
    assert(cells(out@) =~= before + dsk_row(index, *d));
}

fn push_dsk_cells(out: &mut Vec<(Oid, Value)>, disks: &[DiskSample])
    ensures
        cells(final(out)@) == cells(old(out)@) + dsk_group(disks@),
{
    let ghost start = cells(out@);
    let mut i: usize = 0;
    proof {
        assert(disks@.take(0) =~= Seq::<DiskSample>::empty());
        assert(start =~= start + dsk_group(disks@.take(0)));
    }
    while i < disks.len()
        invariant
            i <= disks@.len(),
            cells(out@) == start + dsk_group(disks@.take(i as int)),
        decreases disks@.len() - i,
    {
        proof {
            assert(disks@.take(i + 1).drop_last() =~= disks@.take(i as int));
            assert(disks@.take(i + 1).last() == disks@[i as int]);
        }
        push_dsk_row(out, row_number(i), &disks[i]);
        assert(cells(out@) =~= start + dsk_group(disks@.take(i + 1)));
        i += 1;
    }
    assert(disks@.take(i as int) =~= disks@);
}

/// A percentage, brought into the range from 0 to 100.
pub open spec fn percentage(n: i64) -> i64 {
    if n < 0 {
        0
    } else if n > 100 {
        100
    } else {
        n
    }
}

/// The cells of the processor summary: all that is not idle counts as user time.
pub open spec fn ss_cpu_group(s: Snapshot) -> Seq<CellView> {
    let e = ucd_root().push(11);
    let busy = percentage(s.cpu_global_pct);
    seq![
        cell(e, 9, 0, ValueView::Integer(busy)),
        cell(e, 10, 0, ValueView::Integer(0)),
        cell(e, 11, 0, ValueView::Integer((100 - busy) as i64)),
    ]
}

/// The busy and the idle part of the processors make a whole.
pub proof fn idle_complements_busy(s: Snapshot)
    ensures
        exists|busy: i64, idle: i64|
            {
                &&& 0 <= busy <= 100
                &&& busy + idle == 100
                &&& #[trigger] cell(ucd_root().push(11), 9, 0, ValueView::Integer(busy))
                    == ss_cpu_group(s)[0]
                &&& #[trigger] cell(ucd_root().push(11), 11, 0, ValueView::Integer(idle))
                    == ss_cpu_group(s)[2]
            },
{
    let busy = percentage(s.cpu_global_pct);
    let idle = (100 - busy) as i64;
    assert(cell(ucd_root().push(11), 9, 0, ValueView::Integer(busy)) == ss_cpu_group(s)[0]);
    assert(cell(ucd_root().push(11), 11, 0, ValueView::Integer(idle)) == ss_cpu_group(s)[2]);
}

fn push_ss_cpu_cells(out: &mut Vec<(Oid, Value)>, snap: &Snapshot)
    ensures
        cells(final(out)@) == cells(old(out)@) + ss_cpu_group(*snap),
{
    let e: [u32; 8] = [1, 3, 6, 1, 4, 1, 2021, 11];
    assert(e@ =~= ucd_root().push(11));
    let ghost before = cells(out@);
    let pct: i64 = snap.cpu_global_pct;
    let busy: i64 = if pct < 0 {
        0
    } else if pct > 100 {
        100
    } else {
        pct
    };
    push_row_cell(out, &e, 9, 0, Value::Integer(busy));
    push_row_cell(out, &e, 10, 0, Value::Integer(0));
    push_row_cell(out, &e, 11, 0, Value::Integer(100 - busy));
    assert(cells(out@) =~= before + ss_cpu_group(*snap));
}

/// The raw counters of the kernel.
#[derive(Debug, PartialEq, Eq)]
pub struct ProcStat {
    /// Time of all processors: user, nice, system, idle, wait, irq, softirq.
    pub cpu_jiffies: [u64; 7],
    /// Pages in and out.
    pub page: [u64; 2],
    /// Pages swapped in and out.
    pub swap: [u64; 2],
    /// Interrupts.
    pub intr_total: u64,
    /// Context switches.
    pub ctxt_total: u64,
}

/// The mathematical content of a [`ProcStat`].
#[verifier::ext_equal]
pub struct StatView {
    pub cpu_jiffies: Seq<u64>,
    pub page: Seq<u64>,
    pub swap: Seq<u64>,
    pub intr_total: u64,
    pub ctxt_total: u64,
}

impl View for ProcStat {
    type V = StatView;

    open spec fn view(&self) -> StatView {
        StatView {
            cpu_jiffies: self.cpu_jiffies@,
            page: self.page@,
            swap: self.swap@,
            intr_total: self.intr_total,
            ctxt_total: self.ctxt_total,
        }
    }
}

/// Counters that are all zero.
pub open spec fn no_stat() -> StatView {
    StatView {
        cpu_jiffies: seq![0u64, 0, 0, 0, 0, 0, 0],
        page: seq![0u64, 0],
        swap: seq![0u64, 0],
        intr_total: 0,
        ctxt_total: 0,
    }
}

impl Default for ProcStat {
    fn default() -> (r: ProcStat)
        ensures
            r@ == no_stat(),
    {
        let r = ProcStat {
            cpu_jiffies: [0, 0, 0, 0, 0, 0, 0],
            page: [0, 0],
            swap: [0, 0],
            intr_total: 0,
            ctxt_total: 0,
        };
        assert(r@ =~= no_stat());
        r
    }
}

/// The number of a word, or zero.
pub open spec fn word_number(w: Seq<char>) -> u64 {
    match unsigned_value(w, 10, u64::MAX as nat) {
        Some(n) => n as u64,
        None => 0,
    }
}

/// The number of the word `k` of a line; the one before where the line has no such word.
pub open spec fn slot_of(w: Seq<Seq<char>>, k: int, before: u64) -> u64 {
    if 0 <= k < w.len() {
        word_number(w[k])
    } else {
        before
    }
}

/// The counters after one more line of the statistics.
pub open spec fn stat_line(st: StatView, line: Seq<char>) -> StatView {
    let w = words(line);
    if w.len() == 0 {
        st
    } else if w[0] == "cpu"@ {
        StatView {
            cpu_jiffies: Seq::new(7, |k: int| slot_of(w, k + 1, st.cpu_jiffies[k])),
            ..st
        }
    } else if w[0] == "page"@ {
        StatView { page: Seq::new(2, |k: int| slot_of(w, k + 1, st.page[k])), ..st }
    } else if w[0] == "swap"@ {
        StatView { swap: Seq::new(2, |k: int| slot_of(w, k + 1, st.swap[k])), ..st }
    } else if w[0] == "intr"@ {
        StatView { intr_total: slot_of(w, 1, st.intr_total), ..st }
    } else if w[0] == "ctxt"@ {
        StatView { ctxt_total: slot_of(w, 1, st.ctxt_total), ..st }
    } else {
        st
    }
}

/// The counters that the lines of the statistics give.
pub open spec fn stat_of(ls: Seq<Seq<char>>) -> StatView
    decreases ls.len(),
{
    if ls.len() == 0 {
        no_stat()
    } else {
        stat_line(stat_of(ls.drop_last()), ls.last())
    }
}

fn slot(w: &Vec<Vec<char>>, k: usize, before: u64) -> (r: u64)
    ensures
        r == slot_of(texts(w@), k as int, before),
{
    if k < w.len() {
        match parse_unsigned(w[k].as_slice(), 10, u64::MAX) {
            Some(n) => n,
            None => 0,
        }
    } else {
        before
    }
}

fn take_stat_line(st: ProcStat, line: &[char]) -> (r: ProcStat)
    ensures
        r@ == stat_line(st@, line@),
{
    let w = split_words(line);
    let ghost ws = texts(w@);
    let mut out = st;
    if w.len() == 0 {
        return out;
    }
    assert(ws[0] == w@[0]@);
    let head = w[0].as_slice();
    if chars_are(head, "cpu") {
        let c = out.cpu_jiffies;
        out.cpu_jiffies = [
            slot(&w, 1, c[0]),
            slot(&w, 2, c[1]),
            slot(&w, 3, c[2]),
            slot(&w, 4, c[3]),
            slot(&w, 5, c[4]),
            slot(&w, 6, c[5]),
            slot(&w, 7, c[6]),
        ];
    } else if chars_are(head, "page") {
        let p = out.page;
        out.page = [slot(&w, 1, p[0]), slot(&w, 2, p[1])];
    } else if chars_are(head, "swap") {
        let p = out.swap;
        out.swap = [slot(&w, 1, p[0]), slot(&w, 2, p[1])];
    } else if chars_are(head, "intr") {
        out.intr_total = slot(&w, 1, out.intr_total);
    } else if chars_are(head, "ctxt") {
        out.ctxt_total = slot(&w, 1, out.ctxt_total);
    }
    assert(out@ =~= stat_line(st@, line@));
    out
}

/// Read the text of the kernel statistics. What is missing is zero, and so is what is no number.
pub fn parse_proc_stat_text(text: &str) -> (r: ProcStat)
    ensures
        r@ == stat_of(lines(text@)),
{
    let v = chars_of(text);
    let ls = split_lines(v.as_slice());
    let ghost all = texts(ls@);
    let mut st = ProcStat::default();
    let mut i: usize = 0;
    assert(all.take(0) =~= Seq::<Seq<char>>::empty());
    while i < ls.len()
        invariant
            i <= ls@.len(),
            all == texts(ls@),
            st@ == stat_of(all.take(i as int)),
        decreases ls@.len() - i,
    {
        proof {
            assert(all.take(i + 1).drop_last() =~= all.take(i as int));
            assert(all.take(i + 1).last() == ls@[i as int]@);
        }
        st = take_stat_line(st, ls[i].as_slice());
        i += 1;
    }
    assert(all.take(i as int) =~= all);
    st
}

/// A raw counter: the low 32 bits.
pub open spec fn raw(col: u32, n: int) -> CellView {
    cell(ucd_root().push(11), col, 0, ValueView::Counter32((n % 0x1_0000_0000) as u32))
}

/// The cells of the raw processor and kernel counters.
pub open spec fn ss_raw_group(st: StatView) -> Seq<CellView> {
    let c = st.cpu_jiffies;
    seq![
        raw(50, c[0] as int),
        raw(51, c[1] as int),
        raw(52, c[2] as int),
        raw(53, c[3] as int),
        raw(54, c[4] as int),
        raw(55, c[5] + c[6]),
        raw(56, c[5] as int),
        raw(57, st.page[0] as int),
        raw(58, st.page[1] as int),
        raw(59, st.intr_total as int),
        raw(60, st.intr_total as int),
        raw(61, st.ctxt_total as int),
        raw(62, st.swap[0] as int),
        raw(63, st.swap[1] as int),
    ]
}

fn push_raw(out: &mut Vec<(Oid, Value)>, col: u32, n: u128)
    ensures
        cells(final(out)@) == cells(old(out)@).push(raw(col, n as int)),
{
    let e: [u32; 8] = [1, 3, 6, 1, 4, 1, 2021, 11];
    assert(e@ =~= ucd_root().push(11));
    push_row_cell(out, &e, col, 0, Value::Counter32((n % 0x1_0000_0000) as u32));
}

/// The cells of the raw processor and kernel counters.
pub fn ss_cpu_raw_cells(stat: &ProcStat) -> (r: Vec<(Oid, Value)>)
    ensures
        cells(r@) == ss_raw_group(stat@),
{
    let c = stat.cpu_jiffies;
    let mut out: Vec<(Oid, Value)> = Vec::new();
    push_raw(&mut out, 50, c[0] as u128);
    push_raw(&mut out, 51, c[1] as u128);
    push_raw(&mut out, 52, c[2] as u128);
    push_raw(&mut out, 53, c[3] as u128);
    push_raw(&mut out, 54, c[4] as u128);
    push_raw(&mut out, 55, c[5] as u128 + c[6] as u128);
    push_raw(&mut out, 56, c[5] as u128);
    push_raw(&mut out, 57, stat.page[0] as u128);
    push_raw(&mut out, 58, stat.page[1] as u128);
    push_raw(&mut out, 59, stat.intr_total as u128);
    push_raw(&mut out, 60, stat.intr_total as u128);
    push_raw(&mut out, 61, stat.ctxt_total as u128);
    push_raw(&mut out, 62, stat.swap[0] as u128);
    push_raw(&mut out, 63, stat.swap[1] as u128);
    assert(cells(out@) =~= ss_raw_group(stat@));
    out
}

/// The cells of the version group: the version, an unknown date, and the kind of build.
pub open spec fn version_group() -> Seq<CellView> {
    let e = ucd_root().push(1);
    seq![
        cell(e, 1, 0, ValueView::OctetString(utf8("net-snmp-rs "@ + VERSION@))),
        cell(e, 2, 0, ValueView::OctetString(seq![])),
        cell(e, 3, 0, ValueView::OctetString(utf8("cross-platform sysinfo build"@))),
    ]
}

/// The cells of the version group.
pub fn version_cells() -> (r: Vec<(Oid, Value)>)
    ensures
        cells(r@) == version_group(),
{
    let e: [u32; 8] = [1, 3, 6, 1, 4, 1, 2021, 1];
    assert(e@ =~= ucd_root().push(1));
    let mut tag = "net-snmp-rs ".to_owned();
    tag.append(VERSION);
    let none: Vec<u8> = Vec::new();
    assert(none@ =~= Seq::<u8>::empty());
    let mut out: Vec<(Oid, Value)> = Vec::new();
    push_row_cell(&mut out, &e, 1, 0, text_value(tag.as_str()));
    push_row_cell(&mut out, &e, 2, 0, Value::OctetString(none));
    push_row_cell(&mut out, &e, 3, 0, text_value("cross-platform sysinfo build"));
    assert(cells(out@) =~= version_group());
    out
}

/// A command that is run on demand.
#[derive(Debug)]
pub struct ExecEntry {
    /// The name.
    pub name: String,
    /// The program.
    pub command: String,
    /// Its arguments.
    pub args: Vec<String>,
}

/// The mathematical content of an [`ExecEntry`].
#[verifier::ext_equal]
pub struct ExecView {
    pub name: Seq<char>,
    pub command: Seq<char>,
    pub args: Seq<Seq<char>>,
}

impl View for ExecEntry {
    type V = ExecView;

    open spec fn view(&self) -> ExecView {
        ExecView { name: self.name@, command: self.command@, args: strings(self.args@) }
    }
}

/// The entries of a list.
pub open spec fn exec_views(v: Seq<ExecEntry>) -> Seq<ExecView> {
    v.map_values(|e: ExecEntry| e@)
}

/// What a run of a command gave: its exit code, where it has one, and its output.
#[derive(Debug)]
pub struct ExecOutput {
    /// The exit code; none for a command that a signal ended.
    pub code: Option<i32>,
    /// The standard output.
    pub stdout: Vec<u8>,
}

/// The first line of a text; empty if there is none.
pub open spec fn first_line(text: Seq<char>) -> Seq<char> {
    let ls = lines(text);
    if ls.len() > 0 {
        ls[0]
    } else {
        seq![]
    }
}

/// The exit code that is reported: 127 where there is none.
pub open spec fn exit_code(code: Option<i32>) -> i64 {
    match code {
        Some(c) => c as i64,
        None => 127,
    }
}

/// The first line of a text.
pub fn first_line_of(text: &str) -> (r: String)
    ensures
        r@ == first_line(text@),
{
    let v = chars_of(text);
    let ls = split_lines(v.as_slice());
    if ls.len() > 0 {
        assert(texts(ls@)[0] == ls@[0]@);
        string_of(ls[0].as_slice())
    } else {
        let s = String::new();
        assert(s@ =~= Seq::<char>::empty());
        s
    }
}

impl ExecEntry {
    /// An entry with the given name, program and arguments.
    pub fn new(name: &str, command: &str, args: Vec<String>) -> (r: ExecEntry)
        ensures
            r@ == (ExecView { name: name@, command: command@, args: strings(args@) }),
    {
        ExecEntry { name: name.to_owned(), command: command.to_owned(), args }
    }

    /// The exit code and the first line of the output of a run; 127 and nothing where the command
    /// could not be run.
    pub fn run(output: &Option<ExecOutput>) -> (r: (i64, String))
        ensures
            match output {
                Some(o) => r.0 == exit_code(o.code) && r.1@ == first_line(bytes_text(o.stdout@)),
                None => r.0 == 127 && r.1@.len() == 0,
            },
    {
        match output {
            Some(o) => {
                let code: i64 = match o.code {
                    Some(c) => c as i64,
                    None => 127,
                };
                let text = text_of_bytes(o.stdout.as_slice());
                (code, first_line_of(text.as_str()))
            },
            None => (127, String::new()),
        }
    }
}

/// The commands that are run on demand.
#[derive(Debug)]
pub struct ExecRegistry {
    /// The entries.
    pub entries: Vec<ExecEntry>,
}

impl ExecRegistry {
    /// No commands.
    pub fn new() -> (r: ExecRegistry)
        ensures
            exec_views(r.entries@) == Seq::<ExecView>::empty(),
    {
        let r = ExecRegistry { entries: Vec::new() };
        assert(exec_views(r.entries@) =~= Seq::<ExecView>::empty());
        r
    }

    /// Add a command, and give its number, from one.
    pub fn add(&mut self, name: &str, command: &str, args: Vec<String>) -> (r: usize)
        ensures
            exec_views(final(self).entries@) == exec_views(old(self).entries@).push(
                ExecView { name: name@, command: command@, args: strings(args@) },
            ),
            r == old(self).entries@.len() + 1,
    {
        let ghost before = self.entries@;
        self.entries.push(ExecEntry::new(name, command, args));
        assert(exec_views(self.entries@) =~= exec_views(before).push(self.entries@.last()@));
        self.entries.len()
    }

    /// The commands.
    pub fn entries(&self) -> (r: &[ExecEntry])
        ensures
            r@ == self.entries@,
    {
        self.entries.as_slice()
    }
}

impl Default for ExecRegistry {
    fn default() -> (r: ExecRegistry)
        ensures
            exec_views(r.entries@) == Seq::<ExecView>::empty(),
    {
        ExecRegistry::new()
    }
}

/// Words with a space between them.
pub open spec fn joined(args: Seq<Seq<char>>) -> Seq<char>
    decreases args.len(),
{
    if args.len() == 0 {
        seq![]
    } else if args.len() == 1 {
        args[0]
    } else {
        joined(args.drop_last()) + " "@ + args.last()
    }
}

/// Append words with a space between them.
pub fn push_joined(out: &mut String, args: &[String])
    ensures
        final(out)@ == old(out)@ + joined(strings(args@)),
{
    let ghost start = out@;
    let ghost all = strings(args@);
    let mut i: usize = 0;
    proof {
        assert(all.take(0) =~= Seq::<Seq<char>>::empty());
        assert(start =~= start + joined(all.take(0)));
    }
    while i < args.len()
        invariant
            i <= args@.len(),
            all == strings(args@),
            out@ == start + joined(all.take(i as int)),
        decreases args@.len() - i,
    {
        let ghost after = all.take(i + 1);
        proof {
            assert(after.drop_last() =~= all.take(i as int));
            assert(after.last() == args@[i as int]@);
            if i == 0 {
                assert(after[0] == args@[0]@);
            }
        }
        if i > 0 {
            out.append(" ");
        }
        out.append(args[i].as_str());
        assert(out@ =~= start + joined(after));
        i += 1;
    }
    assert(all.take(i as int) =~= all);
}

/// The row prefix of the command table.
pub open spec fn ext_entry() -> Seq<u32> {
    seq![1u32, 3, 6, 1, 4, 1, 2021, 8, 1]
}

/// The cells of one command and the exit code and line that it gave.
pub open spec fn ext_row(index: u32, e: ExecView, code: i64, line: Seq<char>) -> Seq<CellView> {
    let p = ext_entry();
    seq![
        cell(p, 1, index, ValueView::Integer(index as i64)),
        cell(p, 2, index, ValueView::OctetString(utf8(e.name))),
        cell(p, 3, index, ValueView::OctetString(utf8(e.command + " "@ + joined(e.args)))),
        cell(p, 4, index, ValueView::Integer(code)),
        cell(p, 5, index, ValueView::OctetString(utf8(line))),
    ]
}

/// The cells of the command table, row by row.
pub open spec fn ext_group(es: Seq<ExecView>, outcomes: Seq<(i64, String)>) -> Seq<CellView>
    decreases es.len(),
{
    if es.len() == 0 {
        seq![]
    } else {
        let k = es.len() - 1;
        ext_group(es.drop_last(), outcomes) + ext_row(
            es.len() as u32,
            es.last(),
            outcomes[k].0,
            outcomes[k].1@,
        )
    }
}

/// The cells of the command table, for the exit code and line of each command.
pub fn ext_table_cells(reg: &ExecRegistry, outcomes: &[(i64, String)]) -> (r: Vec<(Oid, Value)>)
    requires
        outcomes@.len() == reg.entries@.len(),
    ensures
        cells(r@) == ext_group(exec_views(reg.entries@), outcomes@),
{
    let p: [u32; 9] = [1, 3, 6, 1, 4, 1, 2021, 8, 1];
    assert(p@ =~= ext_entry());
    let ghost all = exec_views(reg.entries@);
    let mut out: Vec<(Oid, Value)> = Vec::new();
    let mut i: usize = 0;
    proof {
        assert(all.take(0) =~= Seq::<ExecView>::empty());
        assert(cells(out@) =~= Seq::<CellView>::empty());
    }
    while i < reg.entries.len()
        invariant
            i <= reg.entries@.len(),
            outcomes@.len() == reg.entries@.len(),
            p@ == ext_entry(),
            all == exec_views(reg.entries@),
            cells(out@) == ext_group(all.take(i as int), outcomes@),
        decreases reg.entries@.len() - i,
    {
        let ghost before = cells(out@);
        let e = &reg.entries[i];
        let index: u32 = row_number(i);
        proof {
            assert(all.take(i + 1).drop_last() =~= all.take(i as int));
            assert(all.take(i + 1).last() == e@);
        }
        let mut command = e.command.clone();
        command.append(" ");
        push_joined(&mut command, e.args.as_slice());
        let (code, line) = (outcomes[i].0, outcomes[i].1.as_str());
        push_row_cell(&mut out, &p, 1, index, Value::Integer(index as i64));
        push_row_cell(&mut out, &p, 2, index, text_value(e.name.as_str()));
        push_row_cell(&mut out, &p, 3, index, text_value(command.as_str()));
        push_row_cell(&mut out, &p, 4, index, Value::Integer(code));
        push_row_cell(&mut out, &p, 5, index, text_value(line));
        assert(cells(out@) =~= before + ext_row(index, e@, code, line@));
        i += 1;
    }
    assert(all.take(i as int) =~= all);
    out
}

/// How many processes of a name are allowed.
#[derive(Debug)]
pub struct ProcCheckEntry {
    /// The name.
    pub name: String,
    /// The greatest number without an error.
    pub max: i64,
    /// The least number without an error.
    pub min: i64,
}

/// The checks of process numbers.
#[derive(Debug)]
pub struct ProcCheckRegistry {
    /// The entries.
    pub entries: Vec<ProcCheckEntry>,
}

impl ProcCheckRegistry {
    /// No checks.
    pub fn new() -> (r: ProcCheckRegistry)
        ensures
            r.entries@ == Seq::<ProcCheckEntry>::empty(),
    {
        ProcCheckRegistry { entries: Vec::new() }
    }

    /// Add a check, and give the number of checks.
    pub fn add(&mut self, name: &str, max: i64, min: i64) -> (r: usize)
        ensures
            final(self).entries@.len() == old(self).entries@.len() + 1,
            final(self).entries@.drop_last() == old(self).entries@,
            final(self).entries@.last().name@ == name@,
            final(self).entries@.last().max == max,
            final(self).entries@.last().min == min,
            r == final(self).entries@.len(),
    {
        let ghost before = self.entries@;
        self.entries.push(ProcCheckEntry { name: name.to_owned(), max, min });
        assert(self.entries@.drop_last() =~= before);
        self.entries.len()
    }

    /// The checks.
    pub fn entries(&self) -> (r: &[ProcCheckEntry])
        ensures
            r@ == self.entries@,
    {
        self.entries.as_slice()
    }
}

impl Default for ProcCheckRegistry {
    fn default() -> (r: ProcCheckRegistry)
        ensures
            r.entries@ == Seq::<ProcCheckEntry>::empty(),
    {
        ProcCheckRegistry::new()
    }
}

/// How many processes are called `name`, whatever the case of its letters.
pub open spec fn named_count(ps: Seq<ProcSample>, name: Seq<char>) -> nat
    decreases ps.len(),
{
    if ps.len() == 0 {
        0
    } else {
        named_count(ps.drop_last(), name) + if lowered(ps.last().name@) == lowered(name) {
            1nat
        } else {
            0nat
        }
    }
}

/// Count the processes that are called `pattern`.
pub fn count_named(processes: &[ProcSample], pattern: &str) -> (r: usize)
    ensures
        r == named_count(processes@, pattern@),
{
    let mut n: usize = 0;
    let mut i: usize = 0;
    assert(processes@.take(0) =~= Seq::<ProcSample>::empty());
    while i < processes.len()
        invariant
            i <= processes@.len(),
            n == named_count(processes@.take(i as int), pattern@),
            n <= i,
        decreases processes@.len() - i,
    {
        proof {
            assert(processes@.take(i + 1).drop_last() =~= processes@.take(i as int));
            assert(processes@.take(i + 1).last() == processes@[i as int]);
        }
        if same_string(processes[i].name.as_str(), pattern) {
            n += 1;
        }
        i += 1;
    }
    assert(processes@.take(i as int) =~= processes@);
    n
}

/// What is wrong with a number of processes; nothing if it is allowed.
pub open spec fn proc_message(e: ProcCheckEntry, count: i64) -> Seq<char> {
    if count > e.max {
        "Too many "@ + e.name@ + " (= "@ + signed_decimal(count as int) + ") (> "@
            + signed_decimal(e.max as int) + ")"@
    } else if count < e.min {
        "Too few "@ + e.name@ + " (= "@ + signed_decimal(count as int) + ") (< "@
            + signed_decimal(e.min as int) + ")"@
    } else {
        seq![]
    }
}

/// The row prefix of the process table.
pub open spec fn pr_entry() -> Seq<u32> {
    seq![1u32, 3, 6, 1, 4, 1, 2021, 2, 1]
}

/// The cells of one check of a process number.
pub open spec fn pr_row(index: u32, e: ProcCheckEntry, count: i64) -> Seq<CellView> {
    let p = pr_entry();
    let wrong = count > e.max || count < e.min;
    seq![
        cell(p, 1, index, ValueView::Integer(index as i64)),
        cell(p, 2, index, ValueView::OctetString(utf8(e.name@))),
        cell(p, 3, index, ValueView::Integer(e.min)),
        cell(p, 4, index, ValueView::Integer(e.max)),
        cell(p, 5, index, ValueView::Integer(count)),
        cell(
            p,
            6,
            index,
            ValueView::Integer(
                if wrong {
                    1
                } else {
                    0
                },
            ),
        ),
        cell(p, 7, index, ValueView::OctetString(utf8(proc_message(e, count)))),
    ]
}

/// The cells of the process table, row by row.
pub open spec fn pr_group(es: Seq<ProcCheckEntry>, ps: Seq<ProcSample>) -> Seq<CellView>
    decreases es.len(),
{
    if es.len() == 0 {
        seq![]
    } else {
        pr_group(es.drop_last(), ps) + pr_row(
            es.len() as u32,
            es.last(),
            named_count(ps, es.last().name@) as i64,
        )
    }
}

fn proc_message_text(e: &ProcCheckEntry, count: i64) -> (r: String)
    ensures
        r@ == proc_message(*e, count),
{
    if count > e.max || count < e.min {
        let many = count > e.max;
        let mut s = if many {
            "Too many ".to_owned()
        } else {
            "Too few ".to_owned()
        };
        s.append(e.name.as_str());
        s.append(" (= ");
        push_signed(&mut s, count);
        if many {
            s.append(") (> ");
            push_signed(&mut s, e.max);
        } else {
            s.append(") (< ");
            push_signed(&mut s, e.min);
        }
        s.append(")");
        s
    } else {
        let s = String::new();
        assert(s@ =~= Seq::<char>::empty());
        s
    }
}

/// The cells of the process table, for the processes of a snapshot.
pub fn pr_table_cells(snap: &Snapshot, reg: &ProcCheckRegistry) -> (r: Vec<(Oid, Value)>)
    ensures
        cells(r@) == pr_group(reg.entries@, snap.processes@),
{
    let p: [u32; 9] = [1, 3, 6, 1, 4, 1, 2021, 2, 1];
    assert(p@ =~= pr_entry());
    let ghost all = reg.entries@;
    let mut out: Vec<(Oid, Value)> = Vec::new();
    let mut i: usize = 0;
    proof {
        assert(all.take(0) =~= Seq::<ProcCheckEntry>::empty());
        assert(cells(out@) =~= Seq::<CellView>::empty());
    }
    while i < reg.entries.len()
        invariant
            i <= reg.entries@.len(),
            p@ == pr_entry(),
            all == reg.entries@,
            cells(out@) == pr_group(all.take(i as int), snap.processes@),
        decreases reg.entries@.len() - i,
    {
        let ghost before = cells(out@);
        let e = &reg.entries[i];
        let index: u32 = row_number(i);
        proof {
            assert(all.take(i + 1).drop_last() =~= all.take(i as int));
            assert(all.take(i + 1).last() == *e);
        }
        let count: i64 = count_named(snap.processes.as_slice(), e.name.as_str()) as i64;
        let flag: i64 = if count > e.max || count < e.min {
            1
        } else {
            0
        };
        let message = proc_message_text(e, count);
        push_row_cell(&mut out, &p, 1, index, Value::Integer(index as i64));
        push_row_cell(&mut out, &p, 2, index, text_value(e.name.as_str()));
        push_row_cell(&mut out, &p, 3, index, Value::Integer(e.min));
        push_row_cell(&mut out, &p, 4, index, Value::Integer(e.max));
        push_row_cell(&mut out, &p, 5, index, Value::Integer(count));
        push_row_cell(&mut out, &p, 6, index, Value::Integer(flag));
        push_row_cell(&mut out, &p, 7, index, text_value(message.as_str()));
        assert(cells(out@) =~= before + pr_row(index, *e, count));
        i += 1;
    }
    assert(all.take(i as int) =~= all);
    out
}

/// How large a file may be.
#[derive(Debug)]
pub struct FileCheckEntry {
    /// The name.
    pub name: String,
    /// The path.
    pub path: String,
    /// The greatest size in bytes; zero for any.
    pub max_size: u64,
}

/// The checks of file sizes.
#[derive(Debug)]
pub struct FileCheckRegistry {
    /// The entries.
    pub entries: Vec<FileCheckEntry>,
}

impl FileCheckRegistry {
    /// No checks.
    pub fn new() -> (r: FileCheckRegistry)
        ensures
            r.entries@ == Seq::<FileCheckEntry>::empty(),
    {
        FileCheckRegistry { entries: Vec::new() }
    }

    /// Add a check, and give the number of checks.
    pub fn add(&mut self, name: &str, path: &str, max_size: u64) -> (r: usize)
        ensures
            final(self).entries@.len() == old(self).entries@.len() + 1,
            final(self).entries@.drop_last() == old(self).entries@,
            final(self).entries@.last().name@ == name@,
            final(self).entries@.last().path@ == path@,
            final(self).entries@.last().max_size == max_size,
            r == final(self).entries@.len(),
    {
        let ghost before = self.entries@;
        self.entries.push(
            FileCheckEntry { name: name.to_owned(), path: path.to_owned(), max_size },
        );
        assert(self.entries@.drop_last() =~= before);
        self.entries.len()
    }

    /// The checks.
    pub fn entries(&self) -> (r: &[FileCheckEntry])
        ensures
            r@ == self.entries@,
    {
        self.entries.as_slice()
    }
}

impl Default for FileCheckRegistry {
    fn default() -> (r: FileCheckRegistry)
        ensures
            r.entries@ == Seq::<FileCheckEntry>::empty(),
    {
        FileCheckRegistry::new()
    }
}

/// What is known of a file: its size, or why that is not known.
#[derive(Debug)]
pub enum FileStat {
    /// The size in bytes.
    Size(u64),
    /// Why there is none.
    Failed(String),
}

/// What is wrong with a file; nothing if it is as large as allowed.
pub open spec fn file_message(e: FileCheckEntry, st: FileStat) -> Seq<char> {
    match st {
        FileStat::Size(n) => if e.max_size > 0 && n > e.max_size {
            e.name@ + " size "@ + decimal(n as nat) + " > "@ + decimal(e.max_size as nat)
        } else {
            seq![]
        },
        FileStat::Failed(why) => e.path@ + ": "@ + why@,
    }
}

/// Whether something is wrong with a file.
pub open spec fn file_is_wrong(e: FileCheckEntry, st: FileStat) -> bool {
    match st {
        FileStat::Size(n) => e.max_size > 0 && n > e.max_size,
        FileStat::Failed(_) => true,
    }
}

/// The row prefix of the file table.
pub open spec fn file_entry() -> Seq<u32> {
    seq![1u32, 3, 6, 1, 4, 1, 2021, 3, 1]
}

/// The size that is reported: zero where none is known.
pub open spec fn file_size(st: FileStat) -> u64 {
    match st {
        FileStat::Size(n) => n,
        FileStat::Failed(_) => 0,
    }
}

/// The cells of one check of a file.
pub open spec fn file_row(index: u32, e: FileCheckEntry, st: FileStat) -> Seq<CellView> {
    let p = file_entry();
    seq![
        cell(p, 1, index, ValueView::Integer(index as i64)),
        cell(p, 2, index, ValueView::OctetString(utf8(e.name@))),
        cell(p, 3, index, ValueView::Integer(file_size(st) as i64)),
        cell(p, 4, index, ValueView::Integer(e.max_size as i64)),
        cell(
            p,
            5,
            index,
            ValueView::Integer(
                if file_is_wrong(e, st) {
                    1
                } else {
                    0
                },
            ),
        ),
        cell(p, 6, index, ValueView::OctetString(utf8(file_message(e, st)))),
    ]
}

/// The cells of the file table, row by row.
pub open spec fn file_group(es: Seq<FileCheckEntry>, stats: Seq<FileStat>) -> Seq<CellView>
    decreases es.len(),
{
    if es.len() == 0 {
        seq![]
    } else {
        file_group(es.drop_last(), stats) + file_row(
            es.len() as u32,
            es.last(),
            stats[es.len() - 1],
        )
    }
}

fn file_message_text(e: &FileCheckEntry, st: &FileStat) -> (r: String)
    ensures
        r@ == file_message(*e, *st),
{
    match st {
        FileStat::Size(n) => {
            if e.max_size > 0 && *n > e.max_size {
                let mut s = e.name.clone();
                s.append(" size ");
                push_decimal(&mut s, *n);
                s.append(" > ");
                push_decimal(&mut s, e.max_size);
                s
            } else {
                let s = String::new();
                assert(s@ =~= Seq::<char>::empty());
                s
            }
        },
        FileStat::Failed(why) => {
            let mut s = e.path.clone();
            s.append(": ");
            s.append(why.as_str());
            s
        },
    }
}

fn signed(n: u64) -> (r: i64)
    ensures
        r == n as i64,
{
    #[verifier::truncate]
    (n as i64)
}

/// The cells of the file table, for what is known of each file.
pub fn file_cells(reg: &FileCheckRegistry, stats: &[FileStat]) -> (r: Vec<(Oid, Value)>)
    requires
        stats@.len() == reg.entries@.len(),
    ensures
        cells(r@) == file_group(reg.entries@, stats@),
{
    let p: [u32; 9] = [1, 3, 6, 1, 4, 1, 2021, 3, 1];
    assert(p@ =~= file_entry());
    let ghost all = reg.entries@;
    let mut out: Vec<(Oid, Value)> = Vec::new();
    let mut i: usize = 0;
    proof {
        assert(all.take(0) =~= Seq::<FileCheckEntry>::empty());
        assert(cells(out@) =~= Seq::<CellView>::empty());
    }
    while i < reg.entries.len()
        invariant
            i <= reg.entries@.len(),
            stats@.len() == reg.entries@.len(),
            p@ == file_entry(),
            all == reg.entries@,
            cells(out@) == file_group(all.take(i as int), stats@),
        decreases reg.entries@.len() - i,
    {
        let ghost before = cells(out@);
        let e = &reg.entries[i];
        let st = &stats[i];
        let index: u32 = row_number(i);
        proof {
            assert(all.take(i + 1).drop_last() =~= all.take(i as int));
            assert(all.take(i + 1).last() == *e);
        }
        let (size, wrong) = match st {
            FileStat::Size(n) => (*n, e.max_size > 0 && *n > e.max_size),
            FileStat::Failed(_) => (0, true),
        };
        let flag: i64 = if wrong {
            1
        } else {
            0
        };
        let message = file_message_text(e, st);
        push_row_cell(&mut out, &p, 1, index, Value::Integer(index as i64));
        push_row_cell(&mut out, &p, 2, index, text_value(e.name.as_str()));
        push_row_cell(&mut out, &p, 3, index, Value::Integer(signed(size)));
        push_row_cell(&mut out, &p, 4, index, Value::Integer(signed(e.max_size)));
        push_row_cell(&mut out, &p, 5, index, Value::Integer(flag));
        push_row_cell(&mut out, &p, 6, index, text_value(message.as_str()));
        assert(cells(out@) =~= before + file_row(index, *e, *st));
        i += 1;
    }
    assert(all.take(i as int) =~= all);
    out
}

/// What to look for in a log.
#[derive(Debug)]
pub struct LogMatchEntry {
    /// The name.
    pub name: String,
    /// The path of the log.
    pub path: String,
    /// The byte to begin at, if the log is that long.
    pub offset: u64,
    /// The text to look for, letter by letter.
    pub pattern: String,
}

/// The checks of logs.
#[derive(Debug)]
pub struct LogMatchRegistry {
    /// The entries.
    pub entries: Vec<LogMatchEntry>,
}

impl LogMatchRegistry {
    /// No checks.
    pub fn new() -> (r: LogMatchRegistry)
        ensures
            r.entries@ == Seq::<LogMatchEntry>::empty(),
    {
        LogMatchRegistry { entries: Vec::new() }
    }

    /// Add a check, and give the number of checks.
    pub fn add(&mut self, name: &str, path: &str, offset: u64, pattern: &str) -> (r: usize)
        ensures
            final(self).entries@.len() == old(self).entries@.len() + 1,
            final(self).entries@.drop_last() == old(self).entries@,
            final(self).entries@.last().name@ == name@,
            final(self).entries@.last().path@ == path@,
            final(self).entries@.last().offset == offset,
            final(self).entries@.last().pattern@ == pattern@,
            r == final(self).entries@.len(),
    {
        let ghost before = self.entries@;
        self.entries.push(
            LogMatchEntry {
                name: name.to_owned(),
                path: path.to_owned(),
                offset,
                pattern: pattern.to_owned(),
            },
        );
        assert(self.entries@.drop_last() =~= before);
        self.entries.len()
    }

    /// The checks.
    pub fn entries(&self) -> (r: &[LogMatchEntry])
        ensures
            r@ == self.entries@,
    {
        self.entries.as_slice()
    }
}

impl Default for LogMatchRegistry {
    fn default() -> (r: LogMatchRegistry)
        ensures
            r.entries@ == Seq::<LogMatchEntry>::empty(),
    {
        LogMatchRegistry::new()
    }
}

/// How often a text holds another, from front to back and without overlap. The empty text is
/// before, between and behind all characters.
pub open spec fn occurrences(text: Seq<char>, pattern: Seq<char>) -> nat
    decreases text.len(),
{
    if pattern.len() == 0 {
        text.len() + 1
    } else if text.len() < pattern.len() {
        0
    } else if starts_with(text, pattern) {
        1 + occurrences(text.skip(pattern.len() as int), pattern)
    } else {
        occurrences(text.skip(1), pattern)
    }
}

/// The part of a log that is looked at: what is behind the offset, which is nothing of a shorter
/// log.
pub open spec fn log_tail(body: Seq<u8>, offset: u64) -> Seq<u8> {
    if offset <= body.len() {
        body.skip(offset as int)
    } else {
        seq![]
    }
}

/// How often a log holds a text; never if it is not UTF-8.
pub open spec fn log_count(body: Seq<u8>, e: LogMatchEntry) -> nat {
    let tail = log_tail(body, e.offset);
    if vstd::utf8::valid_utf8(tail) {
        occurrences(vstd::utf8::decode_utf8(tail), e.pattern@)
    } else {
        0
    }
}

/// Count how often a text holds another.
pub fn count_occurrences(text: &str, pattern: &str) -> (r: u128)
    ensures
        r == occurrences(text@, pattern@),
{
    let t = chars_of(text);
    let p = chars_of(pattern);
    if p.len() == 0 {
        return t.len() as u128 + 1;
    }
    let mut n: u128 = 0;
    let mut i: usize = 0;
    assert(t@.skip(0) =~= t@);
    while t.len() - i >= p.len()
        invariant
            i <= t@.len(),
            t@ == text@,
            p@ == pattern@,
            p@.len() > 0,
            n <= i,
            n + occurrences(t@.skip(i as int), p@) == occurrences(t@, p@),
        decreases t@.len() - i,
    {
        let ghost rest = t@.skip(i as int);
        let here = matches_at(t.as_slice(), i, p.as_slice());
        proof {
            assert(rest.skip(1) =~= t@.skip(i + 1));
            assert(rest.skip(p@.len() as int) =~= t@.skip(i + p@.len()));
        }
        if here {
            n += 1;
            i += p.len();
        } else {
            i += 1;
        }
    }
    n
}

fn matches_at(t: &[char], i: usize, p: &[char]) -> (r: bool)
    requires
        i + p@.len() <= t@.len(),
    ensures
        r == starts_with(t@.skip(i as int), p@),
{
    let mut k: usize = 0;
    let ghost rest = t@.skip(i as int);
    while k < p.len()
        invariant
            k <= p@.len(),
            i + p@.len() <= t@.len(),
            rest == t@.skip(i as int),
            forall|j: int| 0 <= j < k ==> rest[j] == #[trigger] p@[j],
        decreases p@.len() - k,
    {
        let total: usize = t.len();
        assert(i + k < total);
        if t[i + k] != p[k] {
            proof {
                assert(rest[k as int] != p@[k as int]);
                if starts_with(rest, p@) {
                    assert(rest.take(p@.len() as int)[k as int] == p@[k as int]);
                }
            }
            return false;
        }
        k += 1;
    }
    assert(rest.take(p@.len() as int) =~= p@);
    true
}

/// The row prefix of the log table.
pub open spec fn log_entry() -> Seq<u32> {
    seq![1u32, 3, 6, 1, 4, 1, 2021, 16, 1]
}

/// The cells of one check of a log.
pub open spec fn log_row(index: u32, e: LogMatchEntry, count: nat) -> Seq<CellView> {
    let p = log_entry();
    seq![
        cell(p, 1, index, ValueView::Integer(index as i64)),
        cell(p, 2, index, ValueView::OctetString(utf8(e.name@))),
        cell(p, 3, index, ValueView::OctetString(utf8(e.path@))),
        cell(p, 4, index, ValueView::OctetString(utf8(e.pattern@))),
        cell(p, 7, index, ValueView::Counter32((count % 0x1_0000_0000) as u32)),
    ]
}

/// The cells of the log table, row by row.
pub open spec fn log_group(es: Seq<LogMatchEntry>, bodies: Seq<Vec<u8>>) -> Seq<CellView>
    decreases es.len(),
{
    if es.len() == 0 {
        seq![]
    } else {
        log_group(es.drop_last(), bodies) + log_row(
            es.len() as u32,
            es.last(),
            log_count(bodies[es.len() - 1]@, es.last()),
        )
    }
}

fn count_in_log(body: &[u8], e: &LogMatchEntry) -> (r: u128)
    ensures
        r == log_count(body@, *e),
{
    let from: usize = if e.offset <= body.len() as u64 {
        e.offset as usize
    } else {
        body.len()
    };
    let tail = vstd::slice::slice_subrange(body, from, body.len());
    assert(tail@ =~= log_tail(body@, e.offset));
    match utf8_text(tail) {
        Some(s) => count_occurrences(s.as_str(), e.pattern.as_str()),
        None => 0,
    }
}

/// The cells of the log table, for what each log holds.
pub fn log_match_cells(reg: &LogMatchRegistry, bodies: &[Vec<u8>]) -> (r: Vec<(Oid, Value)>)
    requires
        bodies@.len() == reg.entries@.len(),
    ensures
        cells(r@) == log_group(reg.entries@, bodies@),
{
    let p: [u32; 9] = [1, 3, 6, 1, 4, 1, 2021, 16, 1];
    assert(p@ =~= log_entry());
    let ghost all = reg.entries@;
    let mut out: Vec<(Oid, Value)> = Vec::new();
    let mut i: usize = 0;
    proof {
        assert(all.take(0) =~= Seq::<LogMatchEntry>::empty());
        assert(cells(out@) =~= Seq::<CellView>::empty());
    }
    while i < reg.entries.len()
        invariant
            i <= reg.entries@.len(),
            bodies@.len() == reg.entries@.len(),
            p@ == log_entry(),
            all == reg.entries@,
            cells(out@) == log_group(all.take(i as int), bodies@),
        decreases reg.entries@.len() - i,
    {
        let ghost before = cells(out@);
        let e = &reg.entries[i];
        let index: u32 = row_number(i);
        proof {
            assert(all.take(i + 1).drop_last() =~= all.take(i as int));
            assert(all.take(i + 1).last() == *e);
        }
        let count: u128 = count_in_log(bodies[i].as_slice(), e);
        push_row_cell(&mut out, &p, 1, index, Value::Integer(index as i64));
        push_row_cell(&mut out, &p, 2, index, text_value(e.name.as_str()));
        push_row_cell(&mut out, &p, 3, index, text_value(e.path.as_str()));
        push_row_cell(&mut out, &p, 4, index, text_value(e.pattern.as_str()));
        push_row_cell(&mut out, &p, 7, index, Value::Counter32((count % 0x1_0000_0000) as u32));
        assert(cells(out@) =~= before + log_row(index, *e, count as nat));
        i += 1;
    }
    assert(all.take(i as int) =~= all);
    out
}

/// The checks that are configured; a group without its checks has no cells.
#[derive(Debug)]
pub struct UcdMibConfig {
    /// The commands.
    pub commands: Option<ExecRegistry>,
    /// The checks of process numbers.
    pub proc_check: Option<ProcCheckRegistry>,
    /// The checks of file sizes.
    pub file_check: Option<FileCheckRegistry>,
    /// The checks of logs.
    pub log_match: Option<LogMatchRegistry>,
}

impl Default for UcdMibConfig {
    /// No checks.
    fn default() -> (r: UcdMibConfig)
        ensures
            r.commands is None,
            r.proc_check is None,
            r.file_check is None,
            r.log_match is None,
    {
        UcdMibConfig { commands: None, proc_check: None, file_check: None, log_match: None }
    }
}

/// What the commands, files and logs of a configuration gave.
#[derive(Debug)]
pub struct UcdReadings {
    /// The exit code and the first line of each command.
    pub outcomes: Vec<(i64, String)>,
    /// What is known of each file.
    pub files: Vec<FileStat>,
    /// What each log holds.
    pub logs: Vec<Vec<u8>>,
}

impl UcdReadings {
    /// Whether there is a reading for each check.
    pub open spec fn fit(self, c: UcdMibConfig) -> bool {
        &&& c.commands matches Some(reg) ==> self.outcomes@.len() == reg.entries@.len()
        &&& c.file_check matches Some(reg) ==> self.files@.len() == reg.entries@.len()
        &&& c.log_match matches Some(reg) ==> self.logs@.len() == reg.entries@.len()
    }

    /// No readings.
    pub fn none() -> (r: UcdReadings)
        ensures
            r.outcomes@.len() == 0,
            r.files@.len() == 0,
            r.logs@.len() == 0,
    {
        UcdReadings { outcomes: Vec::new(), files: Vec::new(), logs: Vec::new() }
    }
}

/// The cells that every agent serves.
pub open spec fn base_group(s: Snapshot, st: StatView) -> Seq<CellView> {
    memory_group(s) + la_group(s) + dsk_group(s.disks@) + ss_cpu_group(s) + ss_raw_group(st)
        + version_group()
}

/// The cells of all groups.
pub open spec fn ucd_group(
    s: Snapshot,
    st: StatView,
    c: UcdMibConfig,
    x: UcdReadings,
) -> Seq<CellView> {
    base_group(s, st) + match c.commands {
        Some(reg) => ext_group(exec_views(reg.entries@), x.outcomes@),
        None => seq![],
    } + match c.proc_check {
        Some(reg) => pr_group(reg.entries@, s.processes@),
        None => seq![],
    } + match c.file_check {
        Some(reg) => file_group(reg.entries@, x.files@),
        None => seq![],
    } + match c.log_match {
        Some(reg) => log_group(reg.entries@, x.logs@),
        None => seq![],
    }
}

fn raw_ucd_cells(
    snap: &Snapshot,
    stat: &ProcStat,
    config: &UcdMibConfig,
    readings: &UcdReadings,
) -> (r: Vec<(Oid, Value)>)
    requires
        readings.fit(*config),
    ensures
        cells(r@) == ucd_group(*snap, stat@, *config, *readings),
{
    let mut out: Vec<(Oid, Value)> = Vec::new();
    push_memory_cells(&mut out, snap);
    push_la_row(&mut out, 1, "Load-1", &snap.load_avg.one);
    push_la_row(&mut out, 2, "Load-5", &snap.load_avg.five);
    push_la_row(&mut out, 3, "Load-15", &snap.load_avg.fifteen);
    push_dsk_cells(&mut out, snap.disks.as_slice());
    push_ss_cpu_cells(&mut out, snap);
    append_cells(&mut out, ss_cpu_raw_cells(stat));
    append_cells(&mut out, version_cells());
    assert(cells(out@) =~= base_group(*snap, stat@));
    if let Some(reg) = &config.commands {
        append_cells(&mut out, ext_table_cells(reg, readings.outcomes.as_slice()));
    }
    if let Some(reg) = &config.proc_check {
        append_cells(&mut out, pr_table_cells(snap, reg));
    }
    if let Some(reg) = &config.file_check {
        append_cells(&mut out, file_cells(reg, readings.files.as_slice()));
    }
    if let Some(reg) = &config.log_match {
        append_cells(&mut out, log_match_cells(reg, readings.logs.as_slice()));
    }
    assert(cells(out@) =~= ucd_group(*snap, stat@, *config, *readings));
    out
}

/// The cells of all groups, in order.
pub fn ucd_cells(
    snap: &Snapshot,
    stat: &ProcStat,
    config: &UcdMibConfig,
    readings: &UcdReadings,
) -> (r: Vec<(Oid, Value)>)
    requires
        readings.fit(*config),
    ensures
        is_table_of(cells(r@), ucd_group(*snap, stat@, *config, *readings)),
{
    collect_cells(raw_ucd_cells(snap, stat, config, readings))
}

fn ucd_oid() -> (r: Oid)
    ensures
        r@ == ucd_root(),
{
    let r = Oid::new(vec![1, 3, 6, 1, 4, 1, 2021]);
    assert(r@ =~= ucd_root());
    r
}

/// The handler of all groups.
pub fn ucd_handler_with(
    snap: &Snapshot,
    stat: &ProcStat,
    config: &UcdMibConfig,
    readings: &UcdReadings,
) -> (r: FnHandler)
    requires
        readings.fit(*config),
    ensures
        r.state() == table_state(ucd_root(), ucd_group(*snap, stat@, *config, *readings)),
{
    FnHandler::table(ucd_oid(), raw_ucd_cells(snap, stat, config, readings))
}

/// The handler of the groups that need no configuration.
pub fn ucd_handler(snap: &Snapshot, stat: &ProcStat) -> (r: FnHandler)
    ensures
        r.state() == table_state(ucd_root(), base_group(*snap, stat@)),
{
    let config = UcdMibConfig::default();
    let readings = UcdReadings::none();
    assert(ucd_group(*snap, stat@, config, readings) =~= base_group(*snap, stat@));
    ucd_handler_with(snap, stat, &config, &readings)
}

/// The command of a line `NAME CMD ARGS...`; none for a blank line, a comment, or a line without
/// a command.
pub open spec fn exec_line(raw: Seq<char>) -> Option<ExecView> {
    let line = trim(raw);
    let w = words(line);
    if line.len() == 0 || line[0] == '#' || w.len() < 2 {
        None
    } else {
        Some(ExecView { name: w[0], command: w[1], args: w.skip(2) })
    }
}

/// The commands of lines.
pub open spec fn exec_lines(ls: Seq<Seq<char>>) -> Seq<ExecView>
    decreases ls.len(),
{
    if ls.len() == 0 {
        seq![]
    } else {
        match exec_line(ls.last()) {
            Some(e) => exec_lines(ls.drop_last()).push(e),
            None => exec_lines(ls.drop_last()),
        }
    }
}

fn parse_exec_line(raw: &[char]) -> (r: Option<ExecEntry>)
    ensures
        (match r {
            Some(e) => Some(e@),
            None => None,
        }) == exec_line(raw@),
{
    let line = trimmed(raw);
    if line.len() == 0 || line[0] == '#' {
        return None;
    }
    let w = split_words(line.as_slice());
    let ghost ws = texts(w@);
    if w.len() < 2 {
        return None;
    }
    assert(ws[0] == w@[0]@);
    assert(ws[1] == w@[1]@);
    let mut args: Vec<String> = Vec::new();
    let mut i: usize = 2;
    while i < w.len()
        invariant
            2 <= i <= w@.len(),
            ws == texts(w@),
            strings(args@) =~= ws.subrange(2, i as int),
        decreases w@.len() - i,
    {
        let ghost before = args@;
        args.push(string_of(w[i].as_slice()));
        assert(strings(args@) =~= strings(before).push(ws[i as int]));
        i += 1;
    }
    assert(strings(args@) =~= ws.skip(2));
    Some(
        ExecEntry {
            name: string_of(w[0].as_slice()),
            command: string_of(w[1].as_slice()),
            args,
        },
    )
}

/// Read the commands of a text with one `NAME CMD ARGS...` per line. Blank lines and comments are
/// left out.
pub fn parse_exec_directives(text: &str) -> (r: Vec<ExecEntry>)
    ensures
        exec_views(r@) == exec_lines(lines(text@)),
{
    let v = chars_of(text);
    let ls = split_lines(v.as_slice());
    let ghost all = texts(ls@);
    let mut out: Vec<ExecEntry> = Vec::new();
    let mut i: usize = 0;
    proof {
        assert(all.take(0) =~= Seq::<Seq<char>>::empty());
        assert(exec_views(out@) =~= Seq::<ExecView>::empty());
    }
    while i < ls.len()
        invariant
            i <= ls@.len(),
            all == texts(ls@),
            exec_views(out@) == exec_lines(all.take(i as int)),
        decreases ls@.len() - i,
    {
        let ghost before = out@;
        proof {
            assert(all.take(i + 1).drop_last() =~= all.take(i as int));
            assert(all.take(i + 1).last() == ls@[i as int]@);
        }
        if let Some(e) = parse_exec_line(ls[i].as_slice()) {
            out.push(e);
            assert(exec_views(out@) =~= exec_views(before).push(out@.last()@));
        }
        i += 1;
    }
    assert(all.take(i as int) =~= all);
    out
}

} // verus!
