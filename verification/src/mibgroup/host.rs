//! The host resources: system, storage, devices, running and installed software.

use vstd::arithmetic::power2::lemma2_to64;
use vstd::arithmetic::power2::lemma_pow2_pos;
use vstd::arithmetic::power2::lemma_pow2_unfold;
use vstd::arithmetic::power2::pow2;
use vstd::prelude::*;

use chrono::Datelike;
use chrono::Offset;
use chrono::Timelike;

use crate::cells::all_rows;
use crate::cells::cell;
use crate::cells::cells;
use crate::cells::collect_cells;
use crate::cells::find;
use crate::cells::find_next;
use crate::cells::is_table_of;
use crate::cells::push_row_cell;
use crate::cells::row_cells;
use crate::cells::row_number;
use crate::cells::table_of;
use crate::cells::CellView;
use crate::cells::Row;
use crate::config::opt_text;
use crate::handler::MibHandler;
use crate::handler::Reading;
use crate::hardware::FsType;
use crate::mibgroup::collector::CpuSample;
use crate::mibgroup::collector::DiskSample;
use crate::mibgroup::collector::ProcSample;
use crate::mibgroup::collector::Snapshot;
use crate::mibgroup::interfaces::Interface;
use crate::notify::last_arc;
use crate::oid::is_prefix;
use crate::oid::Oid;
use crate::pdu::ErrorStatus;
use crate::scalar::compatible;
use crate::scalar::table_state;
use crate::scalar::types_compatible;
use crate::scalar::FnHandler;
use crate::scalar::FnState;
use crate::sorting::into_reversed;
use crate::sorting::is_stable_sort_of;
use crate::sorting::stable_sort;
use crate::sorting::text_before;
use crate::sorting::text_key;
use crate::sorting::Keyed;
use crate::text::begins_with;
use crate::text::chars_eq;
use crate::text::chars_of;
use crate::text::decimal;
use crate::text::lines;
use crate::text::parse_i64;
use crate::text::parse_unsigned;
use crate::text::push_decimal;
use crate::text::push_signed;
use crate::text::signed_decimal;
use crate::text::signed_value;
use crate::text::split_lines;
use crate::text::split_words;
use crate::text::starts_with;
use crate::text::string_of;
use crate::text::texts;
use crate::text::trim;
use crate::text::trimmed;
use crate::text::unsigned_value;
use crate::text::words;
use crate::value::bytes_of;
use crate::value::copy_bytes;
use crate::value::text_value;
use crate::value::utf8;
use crate::value::Value;
use crate::value::ValueView;

verus! {

/// The root of the host group.
pub open spec fn host_root() -> Seq<u32> {
    seq![1u32, 3, 6, 1, 2, 1, 25]
}

/// The local time, field by field.
#[derive(Clone, Copy, Debug, PartialEq, Eq, Structural)]
pub struct LocalTime {
    /// The year.
    pub year: i32,
    /// The month, from one.
    pub month: u32,
    /// The day of the month, from one.
    pub day: u32,
    /// The hour.
    pub hour: u32,
    /// The minute.
    pub minute: u32,
    /// The second.
    pub second: u32,
    /// The nanoseconds of the second; a leap second has more than a thousand million.
    pub nanosecond: u32,
    /// The seconds by which local time is ahead of universal time.
    pub offset_secs: i32,
}

impl LocalTime {
    /// Whether every field is in its range.
    pub open spec fn valid(self) -> bool {
        &&& 1 <= self.month <= 12
        &&& 1 <= self.day <= 31
        &&& self.hour < 24
        &&& self.minute < 60
        &&& self.second < 60
        &&& self.nanosecond < 2_000_000_000
        &&& -86_400 < self.offset_secs < 86_400
    }
}

/// `chrono::Local::now`, with the fields of what it gives. The time depends on the clock and the
/// time zone of the machine, so only the ranges of the fields are stated. The clock must not stand
/// before the year 1970.
#[verifier::external_body]
fn local_now() -> (r: LocalTime)
    ensures
        r.valid(),
{
    let now = chrono::Local::now();
    LocalTime {
        year: now.year(),
        month: now.month(),
        day: now.day(),
        hour: now.hour(),
        minute: now.minute(),
        second: now.second(),
        nanosecond: now.nanosecond(),
        offset_secs: now.offset().fix().local_minus_utc(),
    }
}

/// `a / b` towards zero.
pub open spec fn quotient(a: int, b: int) -> int {
    if a >= 0 {
        a / b
    } else {
        -((-a) / b)
    }
}

/// The eleven octets of a `DateAndTime`: the year in two octets, month, day, hour, minute, second
/// and tenth of a second, and the direction, hours and minutes from universal time.
pub open spec fn date_and_time_of(t: LocalTime) -> Seq<u8> {
    let off = quotient(t.offset_secs as int, 60);
    let dist = if off >= 0 {
        off
    } else {
        -off
    };
    seq![
        ((t.year as int / 256) % 256) as u8,
        (t.year as int % 256) as u8,
        t.month as u8,
        t.day as u8,
        t.hour as u8,
        t.minute as u8,
        t.second as u8,
        (t.nanosecond / 100_000_000) as u8,
        if off >= 0 {
            43u8
        } else {
            45u8
        },
        (dist / 60) as u8,
        (dist % 60) as u8,
    ]
}

fn year_octets(year: i32) -> (r: (u8, u8))
    ensures
        r.0 == ((year as int / 256) % 256) as u8,
        r.1 == (year as int % 256) as u8,
{
    let shifted: u64 = (year as i64 + 0x1_0000_0000) as u64;
    proof {
        let y = year as int;
        let n = shifted as int;
        assert(n / 256 == y / 256 + 0x100_0000);
        assert(n % 256 == y % 256);
        assert((y / 256 + 0x100_0000) % 256 == (y / 256) % 256);
    }
    (((shifted / 256) % 256) as u8, (shifted % 256) as u8)
}

fn minutes_from_universal(offset_secs: i32) -> (r: (bool, u32))
    requires
        -86_400 < offset_secs < 86_400,
    ensures
        ({
            let off = quotient(offset_secs as int, 60);
            r.0 == (off >= 0) && r.1 == (if off >= 0 {
                off
            } else {
                -off
            }) && r.1 < 1440
        }),
{
    if offset_secs >= 0 {
        (true, offset_secs as u32 / 60)
    } else {
        let dist: u32 = (-offset_secs) as u32 / 60;
        (dist == 0, dist)
    }
}

/// A time as a `DateAndTime`.
pub fn date_and_time(t: &LocalTime) -> (r: Vec<u8>)
    requires
        t.valid(),
    ensures
        r@ == date_and_time_of(*t),
{
    let (high, low) = year_octets(t.year);
    let (ahead, dist) = minutes_from_universal(t.offset_secs);
    let sign: u8 = if ahead {
        43
    } else {
        45
    };
    let hours: u8 = (dist / 60) as u8;
    let minutes: u8 = (dist % 60) as u8;
    let tenths: u8 = (t.nanosecond / 100_000_000) as u8;
    let r = vec![
        high,
        low,
        t.month as u8,
        t.day as u8,
        t.hour as u8,
        t.minute as u8,
        t.second as u8,
        tenths,
        sign,
        hours,
        minutes,
    ];
    assert(r@ =~= date_and_time_of(*t));
    r
}

/// A number that an `Integer32` without a sign can hold.
pub open spec fn clamped(v: int) -> i64 {
    if v < 0 {
        0
    } else if v > i32::MAX {
        i32::MAX as i64
    } else {
        v as i64
    }
}

/// Clamp a number into the range from zero to the greatest `Integer32`.
pub fn clamp_i32(v: i64) -> (r: i64)
    ensures
        r == clamped(v as int),
{
    if v < 0 {
        0
    } else if v > i32::MAX as i64 {
        i32::MAX as i64
    } else {
        v
    }
}

fn clamp_u64(v: u64) -> (r: i64)
    ensures
        r == clamped(v as int),
{
    if v > i32::MAX as u64 {
        i32::MAX as i64
    } else {
        v as i64
    }
}

/// The first unit, from `units` on by doubling, in which `total` is an `Integer32`.
pub open spec fn units_from(total: nat, units: nat) -> nat
    decreases total / units,
    when units > 0
    via units_from_shrinks
{
    if total / units > i32::MAX as nat {
        units_from(total, units * 2)
    } else {
        units
    }
}

#[via_fn]
proof fn units_from_shrinks(total: nat, units: nat) {
    if total / units > i32::MAX as nat {
        lemma_half_quotient(total, units);
    }
}

proof fn lemma_half_quotient(total: nat, units: nat)
    requires
        units > 0,
    ensures
        total / (units * 2) == (total / units) / 2,
{
    vstd::arithmetic::div_mod::lemma_div_denominator(total as int, units as int, 2);
}

/// The unit in which the size of a filesystem is given: 4096 bytes, doubled until the size is an
/// `Integer32`.
pub fn alloc_units_for(total: u64) -> (r: i64)
    ensures
        r == units_from(total as nat, 4096),
        4096 <= r <= 0x4_0000_0000,
        total as int / r as int <= i32::MAX,
        exists|k: nat| r == #[trigger] pow2(k),
{
    proof {
        lemma2_to64();
        let k = units_are_powers_of_two(total as nat, 4096, 12);
        assert(units_from(total as nat, 4096) == pow2(k));
    }
    let mut units: u64 = 4096;
    while total / units > i32::MAX as u64
        invariant
            units >= 4096,
            units_from(total as nat, 4096) == units_from(total as nat, units as nat),
            units <= 0x4_0000_0000,
        decreases total / units,
    {
        proof {
            lemma_half_quotient(total as nat, units as nat);
            if units > 0x2_0000_0000 {
                assert(total / units <= i32::MAX) by (nonlinear_arith)
                    requires
                        units > 0x2_0000_0000,
                        total <= 0xffff_ffff_ffff_ffff,
                ;
            }
        }
        units = units * 2;
    }
    units as i64
}

/// The unit of a size is the least that makes it an `Integer32`: the half of it would not do.
pub proof fn units_are_least(total: nat, units: nat)
    requires
        units > 0,
    ensures
        total / units_from(total, units) <= i32::MAX,
        units_from(total, units) == units || total / (units_from(total, units) / 2) > i32::MAX,
    decreases total / units,
{
    if total / units > i32::MAX as nat {
        lemma_half_quotient(total, units);
        units_are_least(total, units * 2);
        assert((units * 2) / 2 == units);
    }
}

/// The unit of a size is a power of two, if the first unit is one.
pub proof fn units_are_powers_of_two(total: nat, units: nat, k: nat) -> (n: nat)
    requires
        units == pow2(k),
    ensures
        units_from(total, units) == pow2(n),
    decreases total / units,
{
    lemma_pow2_pos(k);
    if total / units > i32::MAX as nat {
        lemma_half_quotient(total, units);
        lemma_pow2_unfold(k + 1);
        units_are_powers_of_two(total, units * 2, k + 1)
    } else {
        k
    }
}

/// The object identifier of a filesystem's type.
pub open spec fn fs_type_oid(fs: Seq<char>) -> Seq<u32> {
    seq![1u32, 3, 6, 1, 2, 1, 25, 3, 9, FsType::named(fs).suffix()]
}

/// The object identifier of a filesystem's type.
pub fn fs_type_oid_for(fs: &str) -> (r: Oid)
    ensures
        r@ == fs_type_oid(fs@),
{
    let suffix: u32 = FsType::from_fs_string(fs).as_oid_suffix();
    let r = Oid::new(vec![1, 3, 6, 1, 2, 1, 25, 3, 9, suffix]);
    assert(r@ =~= fs_type_oid(fs@));
    r
}

/// One row of the storage table.
#[derive(Debug, PartialEq, Eq)]
pub struct StorageRow {
    /// `hrStorageIndex`.
    pub index: u32,
    /// `hrStorageType`.
    pub type_oid: Oid,
    /// `hrStorageDescr`.
    pub descr: String,
    /// `hrStorageAllocationUnits`, in bytes.
    pub alloc_units: i64,
    /// `hrStorageSize`, in units.
    pub size: i64,
    /// `hrStorageUsed`, in units.
    pub used: i64,
}

/// The mathematical content of a [`StorageRow`].
#[verifier::ext_equal]
pub struct StorageView {
    pub index: u32,
    pub type_oid: Seq<u32>,
    pub descr: Seq<char>,
    pub alloc_units: i64,
    pub size: i64,
    pub used: i64,
}

impl View for StorageRow {
    type V = StorageView;

    open spec fn view(&self) -> StorageView {
        StorageView {
            index: self.index,
            type_oid: self.type_oid@,
            descr: self.descr@,
            alloc_units: self.alloc_units,
            size: self.size,
            used: self.used,
        }
    }
}

/// The rows of a list.
pub open spec fn storage_views(v: Seq<StorageRow>) -> Seq<StorageView> {
    v.map_values(|r: StorageRow| r@)
}

/// The row prefix of the storage table.
pub open spec fn storage_entry() -> Seq<u32> {
    seq![1u32, 3, 6, 1, 2, 1, 25, 2, 3, 1]
}

/// The cells of one storage row.
pub open spec fn storage_cells(r: StorageView) -> Seq<CellView> {
    let e = storage_entry();
    seq![
        cell(e, 1, r.index, ValueView::Integer(r.index as i64)),
        cell(e, 2, r.index, ValueView::Oid(r.type_oid)),
        cell(e, 3, r.index, ValueView::OctetString(utf8(r.descr))),
        cell(e, 4, r.index, ValueView::Integer(r.alloc_units)),
        cell(e, 5, r.index, ValueView::Integer(r.size)),
        cell(e, 6, r.index, ValueView::Integer(r.used)),
    ]
}

/// The cells of storage rows, one after the other.
pub open spec fn all_storage_cells(rows: Seq<StorageView>) -> Seq<CellView>
    decreases rows.len(),
{
    if rows.len() == 0 {
        seq![]
    } else {
        all_storage_cells(rows.drop_last()) + storage_cells(rows.last())
    }
}

fn push_storage_cells(out: &mut Vec<(Oid, Value)>, rows: &[StorageRow])
    ensures
        cells(final(out)@) == cells(old(out)@) + all_storage_cells(storage_views(rows@)),
{
    let e: [u32; 10] = [1, 3, 6, 1, 2, 1, 25, 2, 3, 1];
    assert(e@ =~= storage_entry());
    let ghost start = cells(out@);
    let ghost all = storage_views(rows@);
    let mut i: usize = 0;
    proof {
        assert(all.take(0) =~= Seq::<StorageView>::empty());
        assert(start + all_storage_cells(all.take(0)) =~= start);
    }
    while i < rows.len()
        invariant
            i <= rows@.len(),
            e@ == storage_entry(),
            all == storage_views(rows@),
            cells(out@) == start + all_storage_cells(all.take(i as int)),
        decreases rows@.len() - i,
    {
        let ghost before = cells(out@);
        let r = &rows[i];
        let index: u32 = r.index;
        proof {
            assert(all.take(i + 1).drop_last() =~= all.take(i as int));
            assert(all.take(i + 1).last() == r@);
        }
        push_row_cell(out, &e, 1, index, Value::Integer(index as i64));
        push_row_cell(out, &e, 2, index, Value::Oid(r.type_oid.clone()));
        push_row_cell(out, &e, 3, index, text_value(r.descr.as_str()));
        push_row_cell(out, &e, 4, index, Value::Integer(r.alloc_units));
        push_row_cell(out, &e, 5, index, Value::Integer(r.size));
        push_row_cell(out, &e, 6, index, Value::Integer(r.used));
        proof {
            assert(cells(out@) =~= before + storage_cells(r@));
            assert(cells(out@) =~= start + all_storage_cells(all.take(i + 1)));
        }
        i += 1;
    }
    assert(all.take(i as int) =~= all);
}

/// The cells of the storage table, in order.
pub fn storage_table_cells(rows: &[StorageRow]) -> (r: Vec<(Oid, Value)>)
    ensures
        is_table_of(cells(r@), all_storage_cells(storage_views(rows@))),
{
    let mut out: Vec<(Oid, Value)> = Vec::new();
    assert(cells(out@) =~= Seq::<CellView>::empty());
    push_storage_cells(&mut out, rows);
    assert(cells(out@) =~= all_storage_cells(storage_views(rows@)));
    collect_cells(out)
}

/// The type of a storage: `.2` memory, `.3` swap, `.4` fixed disk.
pub open spec fn storage_type(arc: u32) -> Seq<u32> {
    seq![1u32, 3, 6, 1, 2, 1, 25, 2, 1, arc]
}

/// The row of a memory of `total` bytes; none for a size of zero.
pub open spec fn memory_row(
    index: u32,
    arc: u32,
    descr: Seq<char>,
    total: u64,
    used: u64,
) -> Seq<StorageView> {
    if total == 0 {
        seq![]
    } else {
        seq![
            StorageView {
                index,
                type_oid: storage_type(arc),
                descr,
                alloc_units: 1024,
                size: clamped(total as int / 1024),
                used: clamped(used as int / 1024),
            },
        ]
    }
}

/// The bytes that are not available.
pub open spec fn used_bytes(d: DiskSample) -> int {
    if d.total >= d.available {
        d.total - d.available
    } else {
        0
    }
}

/// The description of a filesystem: where it is mounted, and its type where that is known.
pub open spec fn disk_descr(d: DiskSample) -> Seq<char> {
    if d.fs@.len() == 0 {
        d.mount@
    } else {
        d.mount@ + " ("@ + d.fs@ + ")"@
    }
}

/// The storage row of the filesystem number `i`, from zero.
pub open spec fn disk_row(d: DiskSample, i: int) -> StorageView {
    let units = units_from(d.total as nat, 4096);
    StorageView {
        index: (4 + i) as u32,
        type_oid: storage_type(4),
        descr: disk_descr(d),
        alloc_units: units as i64,
        size: clamped(d.total as int / units as int),
        used: clamped(used_bytes(d) / units as int),
    }
}

/// The storage rows of the filesystems.
pub open spec fn disk_rows(ds: Seq<DiskSample>) -> Seq<StorageView> {
    Seq::new(ds.len(), |i: int| disk_row(ds[i], i))
}

/// The storage rows of a host: memory, swap space and filesystems.
pub open spec fn storage_rows_of(s: Snapshot) -> Seq<StorageView> {
    memory_row(1, 2, "Physical memory"@, s.mem_total, s.mem_used) + memory_row(
        3,
        3,
        "Swap space"@,
        s.swap_total,
        s.swap_used,
    ) + disk_rows(s.disks@)
}

fn storage_type_oid(arc: u32) -> (r: Oid)
    ensures
        r@ == storage_type(arc),
{
    let r = Oid::new(vec![1, 3, 6, 1, 2, 1, 25, 2, 1, arc]);
    assert(r@ =~= storage_type(arc));
    r
}

/// The storage rows of a host.
pub fn storage_rows(snap: &Snapshot) -> (r: Vec<StorageRow>)
    requires
        snap.indexable(),
    ensures
        storage_views(r@) == storage_rows_of(*snap),
{
    let mut rows: Vec<StorageRow> = Vec::new();
    if snap.mem_total > 0 {
        rows.push(
            StorageRow {
                index: 1,
                type_oid: storage_type_oid(2),
                descr: "Physical memory".to_owned(),
                alloc_units: 1024,
                size: clamp_u64(snap.mem_total / 1024),
                used: clamp_u64(snap.mem_used / 1024),
            },
        );
    }
    let ghost first = memory_row(1, 2, "Physical memory"@, snap.mem_total, snap.mem_used);
    assert(storage_views(rows@) =~= first);
    if snap.swap_total > 0 {
        rows.push(
            StorageRow {
                index: 3,
                type_oid: storage_type_oid(3),
                descr: "Swap space".to_owned(),
                alloc_units: 1024,
                size: clamp_u64(snap.swap_total / 1024),
                used: clamp_u64(snap.swap_used / 1024),
            },
        );
    }
    let ghost fixed = first + memory_row(3, 3, "Swap space"@, snap.swap_total, snap.swap_used);
    assert(storage_views(rows@) =~= fixed);
    let mut i: usize = 0;
    assert(fixed + disk_rows(snap.disks@.take(0)) =~= fixed);
    while i < snap.disks.len()
        invariant
            i <= snap.disks@.len(),
            snap.indexable(),
            storage_views(rows@) == fixed + disk_rows(snap.disks@.take(i as int)),
        decreases snap.disks@.len() - i,
    {
        let ghost before = rows@;
        let disk = &snap.disks[i];
        let units: i64 = alloc_units_for(disk.total);
        let used: u64 = if disk.total >= disk.available {
            disk.total - disk.available
        } else {
            0
        };
        let mut descr = disk.mount.clone();
        if disk.fs.as_str().unicode_len() > 0 {
            descr.append(" (");
            descr.append(disk.fs.as_str());
            descr.append(")");
        }
        rows.push(
            StorageRow {
                index: 4 + i as u32,
                type_oid: storage_type_oid(4),
                descr,
                alloc_units: units,
                size: clamp_u64(disk.total / units as u64),
                used: clamp_u64(used / units as u64),
            },
        );
        proof {
            assert(rows@.last()@ =~= disk_row(*disk, i as int));
            assert(storage_views(rows@) =~= storage_views(before).push(rows@.last()@));
            assert(disk_rows(snap.disks@.take(i + 1)) =~= disk_rows(
                snap.disks@.take(i as int),
            ).push(disk_row(*disk, i as int)));
        }
        i += 1;
    }
    assert(snap.disks@.take(i as int) =~= snap.disks@);
    rows
}

/// The cells of the system group.
pub open spec fn system_cells(s: Snapshot, now: LocalTime) -> Seq<CellView> {
    let e = host_root().push(1);
    let ticks = if s.uptime_secs * 100 > u32::MAX {
        u32::MAX as int
    } else {
        s.uptime_secs * 100
    };
    seq![
        cell(e, 1, 0, ValueView::TimeTicks(ticks as u32)),
        cell(e, 2, 0, ValueView::OctetString(date_and_time_of(now))),
        cell(e, 5, 0, ValueView::Gauge32(clamped(s.num_users as int) as u32)),
        cell(e, 6, 0, ValueView::Gauge32(clamped(s.num_processes as int) as u32)),
        cell(e, 7, 0, ValueView::Integer(0)),
    ]
}

/// The cells of the system group.
pub fn hr_system_cells(snap: &Snapshot, now: &LocalTime) -> (r: Vec<(Oid, Value)>)
    requires
        now.valid(),
    ensures
        cells(r@) == system_cells(*snap, *now),
{
    let e: [u32; 8] = [1, 3, 6, 1, 2, 1, 25, 1];
    assert(e@ =~= host_root().push(1));
    let ticks: u32 = if snap.uptime_secs > u32::MAX as u64 / 100 {
        u32::MAX
    } else {
        (snap.uptime_secs * 100) as u32
    };
    let mut out: Vec<(Oid, Value)> = Vec::new();
    push_row_cell(&mut out, &e, 1, 0, Value::TimeTicks(ticks));
    push_row_cell(&mut out, &e, 2, 0, Value::OctetString(date_and_time(now)));
    push_row_cell(&mut out, &e, 5, 0, Value::Gauge32(clamp_i32(snap.num_users) as u32));
    push_row_cell(&mut out, &e, 6, 0, Value::Gauge32(clamp_i32(snap.num_processes) as u32));
    push_row_cell(&mut out, &e, 7, 0, Value::Integer(0));
    assert(cells(out@) =~= system_cells(*snap, *now));
    out
}

/// The cells of the storage group: the memory size and the storage table.
pub open spec fn storage_group(s: Snapshot) -> Seq<CellView> {
    seq![cell(host_root().push(2), 2, 0, ValueView::Integer(clamped(s.mem_total as int / 1024)))]
        + all_storage_cells(storage_rows_of(s))
}

fn hr_storage_cells(snap: &Snapshot) -> (r: Vec<(Oid, Value)>)
    requires
        snap.indexable(),
    ensures
        cells(r@) == storage_group(*snap),
{
    let e: [u32; 8] = [1, 3, 6, 1, 2, 1, 25, 2];
    assert(e@ =~= host_root().push(2));
    let mut out: Vec<(Oid, Value)> = Vec::new();
    let size: i64 = clamp_u64(snap.mem_total / 1024);
    push_row_cell(&mut out, &e, 2, 0, Value::Integer(size));
    let rows = storage_rows(snap);
    push_storage_cells(&mut out, rows.as_slice());
    assert(cells(out@) =~= storage_group(*snap));
    out
}

/// The row prefix of the device table.
pub open spec fn device_entry() -> Seq<u32> {
    seq![1u32, 3, 6, 1, 2, 1, 25, 3, 2, 1]
}

/// The row prefix of the processor table.
pub open spec fn processor_entry() -> Seq<u32> {
    seq![1u32, 3, 6, 1, 2, 1, 25, 3, 3, 1]
}

/// The row prefix of the filesystem table.
pub open spec fn fs_entry() -> Seq<u32> {
    seq![1u32, 3, 6, 1, 2, 1, 25, 3, 8, 1]
}

/// The type of a device: `.3` processor, `.5` disk.
pub open spec fn device_type(arc: u32) -> Seq<u32> {
    seq![1u32, 3, 6, 1, 2, 1, 25, 3, 1, arc]
}

/// The description of a processor: its name, and its frequency where that is known.
pub open spec fn cpu_descr(c: CpuSample) -> Seq<char> {
    if c.freq_mhz > 0 {
        c.name@ + " @ "@ + signed_decimal(c.freq_mhz as int) + " MHz"@
    } else {
        c.name@
    }
}

/// The device cells of a device that runs.
pub open spec fn device_cells(index: u32, arc: u32, descr: Seq<char>) -> Seq<CellView> {
    let e = device_entry();
    seq![
        cell(e, 1, index, ValueView::Integer(index as i64)),
        cell(e, 2, index, ValueView::Oid(device_type(arc))),
        cell(e, 3, index, ValueView::OctetString(utf8(descr))),
        cell(e, 5, index, ValueView::Integer(2)),
    ]
}

/// The cells of the processor with the device number `index`.
pub open spec fn cpu_cells(c: CpuSample, index: u32) -> Seq<CellView> {
    device_cells(index, 3, cpu_descr(c)) + seq![
        cell(processor_entry(), 1, index, ValueView::Oid(seq![0u32, 0])),
        cell(processor_entry(), 2, index, ValueView::Integer(clamped(c.usage_pct as int))),
    ]
}

/// The cells of the filesystem number `i`, from zero, with the device number `index`. Its row of
/// the filesystem table names its row of the storage table.
pub open spec fn disk_cells(d: DiskSample, i: int, index: u32) -> Seq<CellView> {
    let e = fs_entry();
    let n = (i + 1) as u32;
    device_cells(index, 5, d.mount@) + seq![
        cell(e, 1, n, ValueView::Integer(n as i64)),
        cell(e, 2, n, ValueView::OctetString(utf8(d.mount@))),
        cell(e, 3, n, ValueView::OctetString(seq![])),
        cell(e, 4, n, ValueView::Oid(fs_type_oid(d.fs@))),
        cell(e, 5, n, ValueView::Integer(1)),
        cell(e, 6, n, ValueView::Integer(2)),
        cell(e, 7, n, ValueView::Integer((4 + i) as i64)),
        cell(e, 8, n, ValueView::OctetString(seq![2u8])),
        cell(e, 9, n, ValueView::OctetString(seq![2u8])),
    ]
}

/// The cells of the processors, numbered from one.
pub open spec fn all_cpu_cells(cs: Seq<CpuSample>) -> Seq<CellView>
    decreases cs.len(),
{
    if cs.len() == 0 {
        seq![]
    } else {
        all_cpu_cells(cs.drop_last()) + cpu_cells(cs.last(), cs.len() as u32)
    }
}

/// The cells of the filesystems, whose device numbers follow `base`.
pub open spec fn all_disk_cells(ds: Seq<DiskSample>, base: nat) -> Seq<CellView>
    decreases ds.len(),
{
    if ds.len() == 0 {
        seq![]
    } else {
        all_disk_cells(ds.drop_last(), base) + disk_cells(
            ds.last(),
            ds.len() - 1,
            (base + ds.len()) as u32,
        )
    }
}

/// The cells of the device group: processors first, filesystems behind them.
pub open spec fn device_group(s: Snapshot) -> Seq<CellView> {
    all_cpu_cells(s.cpus@) + all_disk_cells(s.disks@, s.cpus@.len())
}

fn push_device(out: &mut Vec<(Oid, Value)>, index: u32, arc: u32, descr: &str)
    ensures
        cells(final(out)@) == cells(old(out)@) + device_cells(index, arc, descr@),
{
    let e: [u32; 10] = [1, 3, 6, 1, 2, 1, 25, 3, 2, 1];
    assert(e@ =~= device_entry());
    let ghost before = cells(out@);
    let type_oid = Oid::new(vec![1, 3, 6, 1, 2, 1, 25, 3, 1, arc]);
    assert(type_oid@ =~= device_type(arc));
    push_row_cell(out, &e, 1, index, Value::Integer(index as i64));
    push_row_cell(out, &e, 2, index, Value::Oid(type_oid));
    push_row_cell(out, &e, 3, index, text_value(descr));
    push_row_cell(out, &e, 5, index, Value::Integer(2));
    assert(cells(out@) =~= before + device_cells(index, arc, descr@));
}

fn null_oid() -> (r: Value)
    ensures
        r@ == ValueView::Oid(seq![0u32, 0]),
{
    let o = Oid::new(vec![0, 0]);
    assert(o@ =~= seq![0u32, 0]);
    Value::Oid(o)
}

fn no_octets() -> (r: Value)
    ensures
        r@ == ValueView::OctetString(seq![]),
{
    let b: Vec<u8> = Vec::new();
    assert(b@ =~= Seq::<u8>::empty());
    Value::OctetString(b)
}

fn push_cpu(out: &mut Vec<(Oid, Value)>, c: &CpuSample, index: u32)
    ensures
        cells(final(out)@) == cells(old(out)@) + cpu_cells(*c, index),
{
    let e: [u32; 10] = [1, 3, 6, 1, 2, 1, 25, 3, 3, 1];
    assert(e@ =~= processor_entry());
    let ghost before = cells(out@);
    let mut descr = c.name.clone();
    if c.freq_mhz > 0 {
        descr.append(" @ ");
        push_signed(&mut descr, c.freq_mhz);
        descr.append(" MHz");
    }
    push_device(out, index, 3, descr.as_str());
    push_row_cell(out, &e, 1, index, null_oid());
    push_row_cell(out, &e, 2, index, Value::Integer(clamp_i32(c.usage_pct)));
    assert(cells(out@) =~= before + cpu_cells(*c, index));
}

fn unknown_date() -> (r: Value)
    ensures
        r@ == ValueView::OctetString(seq![2u8]),
{
    let b: Vec<u8> = vec![2];
    assert(b@ =~= seq![2u8]);
    Value::OctetString(b)
}

fn push_disk(out: &mut Vec<(Oid, Value)>, d: &DiskSample, i: u32, index: u32)
    requires
        i < u32::MAX,
    ensures
        cells(final(out)@) == cells(old(out)@) + disk_cells(*d, i as int, index),
{
    let e: [u32; 10] = [1, 3, 6, 1, 2, 1, 25, 3, 8, 1];
    assert(e@ =~= fs_entry());
    let ghost before = cells(out@);
    let n: u32 = i + 1;
    push_device(out, index, 5, d.mount.as_str());
    push_row_cell(out, &e, 1, n, Value::Integer(n as i64));
    push_row_cell(out, &e, 2, n, text_value(d.mount.as_str()));
    push_row_cell(out, &e, 3, n, no_octets());
    push_row_cell(out, &e, 4, n, Value::Oid(fs_type_oid_for(d.fs.as_str())));
    push_row_cell(out, &e, 5, n, Value::Integer(1));
    push_row_cell(out, &e, 6, n, Value::Integer(2));
    push_row_cell(out, &e, 7, n, Value::Integer(4 + i as i64));
    push_row_cell(out, &e, 8, n, unknown_date());
    push_row_cell(out, &e, 9, n, unknown_date());
    assert(cells(out@) =~= before + disk_cells(*d, i as int, index));
}

fn raw_device_cells(snap: &Snapshot) -> (r: Vec<(Oid, Value)>)
    requires
        snap.indexable(),
    ensures
        cells(r@) == device_group(*snap),
{
    let mut out: Vec<(Oid, Value)> = Vec::new();
    let ghost cpus = snap.cpus@;
    let ghost disks = snap.disks@;
    let mut i: usize = 0;
    proof {
        assert(cpus.take(0) =~= Seq::<CpuSample>::empty());
        assert(cells(out@) =~= Seq::<CellView>::empty());
    }
    while i < snap.cpus.len()
        invariant
            i <= snap.cpus@.len(),
            snap.indexable(),
            cpus == snap.cpus@,
            cells(out@) == all_cpu_cells(cpus.take(i as int)),
        decreases snap.cpus@.len() - i,
    {
        proof {
            assert(cpus.take(i + 1).drop_last() =~= cpus.take(i as int));
            assert(cpus.take(i + 1).last() == cpus[i as int]);
        }
        push_cpu(&mut out, &snap.cpus[i], (i + 1) as u32);
        i += 1;
    }
    proof {
        assert(cpus.take(i as int) =~= cpus);
        assert(disks.take(0) =~= Seq::<DiskSample>::empty());
        assert(cells(out@) =~= all_cpu_cells(cpus) + all_disk_cells(disks.take(0), cpus.len()));
    }
    let base: usize = snap.cpus.len();
    let mut k: usize = 0;
    while k < snap.disks.len()
        invariant
            k <= snap.disks@.len(),
            snap.indexable(),
            base == snap.cpus@.len(),
            cpus == snap.cpus@,
            disks == snap.disks@,
            cells(out@) == all_cpu_cells(cpus) + all_disk_cells(disks.take(k as int), cpus.len()),
        decreases snap.disks@.len() - k,
    {
        let ghost before = cells(out@);
        proof {
            assert(disks.take(k + 1).drop_last() =~= disks.take(k as int));
            assert(disks.take(k + 1).last() == disks[k as int]);
        }
        push_disk(&mut out, &snap.disks[k], k as u32, (base + k + 1) as u32);
        assert(cells(out@) =~= all_cpu_cells(cpus) + all_disk_cells(
            disks.take(k + 1),
            cpus.len(),
        ));
        k += 1;
    }
    assert(disks.take(k as int) =~= disks);
    out
}

/// The cells of the device group, in order.
pub fn hr_device_cells(snap: &Snapshot) -> (r: Vec<(Oid, Value)>)
    requires
        snap.indexable(),
    ensures
        is_table_of(cells(r@), device_group(*snap)),
{
    collect_cells(raw_device_cells(snap))
}

/// The row prefix of the table of running software.
pub open spec fn swrun_entry() -> Seq<u32> {
    seq![1u32, 3, 6, 1, 2, 1, 25, 4, 2, 1]
}

/// The row prefix of the performance table of running software.
pub open spec fn swrun_perf_entry() -> Seq<u32> {
    seq![1u32, 3, 6, 1, 2, 1, 25, 5, 1, 1]
}

/// The cells of one process.
pub open spec fn process_cells(p: ProcSample) -> Seq<CellView> {
    let e = swrun_entry();
    seq![
        cell(e, 1, p.pid, ValueView::Integer(p.pid as i64)),
        cell(e, 2, p.pid, ValueView::OctetString(utf8(p.name@))),
        cell(e, 3, p.pid, ValueView::Oid(seq![0u32, 0])),
        cell(e, 4, p.pid, ValueView::OctetString(utf8(p.path@))),
        cell(e, 5, p.pid, ValueView::OctetString(seq![])),
        cell(e, 6, p.pid, ValueView::Integer(4)),
        cell(e, 7, p.pid, ValueView::Integer(p.status)),
    ]
}

/// The cells of processes, one after the other.
pub open spec fn swrun_group(ps: Seq<ProcSample>) -> Seq<CellView>
    decreases ps.len(),
{
    if ps.len() == 0 {
        seq![]
    } else {
        swrun_group(ps.drop_last()) + process_cells(ps.last())
    }
}

/// The performance cells of one process.
pub open spec fn performance_cells(p: ProcSample) -> Seq<CellView> {
    let e = swrun_perf_entry();
    seq![
        cell(e, 1, p.pid, ValueView::Integer(clamped(p.cpu_pct as int))),
        cell(e, 2, p.pid, ValueView::Integer(clamped(p.mem_kb as int))),
    ]
}

/// The performance cells of processes, one after the other.
pub open spec fn swrun_perf_group(ps: Seq<ProcSample>) -> Seq<CellView>
    decreases ps.len(),
{
    if ps.len() == 0 {
        seq![]
    } else {
        swrun_perf_group(ps.drop_last()) + performance_cells(ps.last())
    }
}

fn raw_swrun_cells(ps: &[ProcSample]) -> (r: Vec<(Oid, Value)>)
    ensures
        cells(r@) == swrun_group(ps@),
{
    let e: [u32; 10] = [1, 3, 6, 1, 2, 1, 25, 4, 2, 1];
    assert(e@ =~= swrun_entry());
    let mut out: Vec<(Oid, Value)> = Vec::new();
    let mut i: usize = 0;
    proof {
        assert(ps@.take(0) =~= Seq::<ProcSample>::empty());
        assert(cells(out@) =~= Seq::<CellView>::empty());
    }
    while i < ps.len()
        invariant
            i <= ps@.len(),
            e@ == swrun_entry(),
            cells(out@) == swrun_group(ps@.take(i as int)),
        decreases ps@.len() - i,
    {
        let ghost before = cells(out@);
        let p = &ps[i];
        proof {
            assert(ps@.take(i + 1).drop_last() =~= ps@.take(i as int));
            assert(ps@.take(i + 1).last() == *p);
        }
        push_row_cell(&mut out, &e, 1, p.pid, Value::Integer(p.pid as i64));
        push_row_cell(&mut out, &e, 2, p.pid, text_value(p.name.as_str()));
        push_row_cell(&mut out, &e, 3, p.pid, null_oid());
        push_row_cell(&mut out, &e, 4, p.pid, text_value(p.path.as_str()));
        push_row_cell(&mut out, &e, 5, p.pid, no_octets());
        push_row_cell(&mut out, &e, 6, p.pid, Value::Integer(4));
        push_row_cell(&mut out, &e, 7, p.pid, Value::Integer(p.status));
        assert(cells(out@) =~= before + process_cells(*p));
        i += 1;
    }
    assert(ps@.take(i as int) =~= ps@);
    out
}

fn raw_swrun_perf_cells(ps: &[ProcSample]) -> (r: Vec<(Oid, Value)>)
    ensures
        cells(r@) == swrun_perf_group(ps@),
{
    let e: [u32; 10] = [1, 3, 6, 1, 2, 1, 25, 5, 1, 1];
    assert(e@ =~= swrun_perf_entry());
    let mut out: Vec<(Oid, Value)> = Vec::new();
    let mut i: usize = 0;
    proof {
        assert(ps@.take(0) =~= Seq::<ProcSample>::empty());
        assert(cells(out@) =~= Seq::<CellView>::empty());
    }
    while i < ps.len()
        invariant
            i <= ps@.len(),
            e@ == swrun_perf_entry(),
            cells(out@) == swrun_perf_group(ps@.take(i as int)),
        decreases ps@.len() - i,
    {
        let ghost before = cells(out@);
        let p = &ps[i];
        proof {
            assert(ps@.take(i + 1).drop_last() =~= ps@.take(i as int));
            assert(ps@.take(i + 1).last() == *p);
        }
        push_row_cell(&mut out, &e, 1, p.pid, Value::Integer(clamp_i32(p.cpu_pct)));
        push_row_cell(&mut out, &e, 2, p.pid, Value::Integer(clamp_i32(p.mem_kb)));
        assert(cells(out@) =~= before + performance_cells(*p));
        i += 1;
    }
    assert(ps@.take(i as int) =~= ps@);
    out
}

fn host_oid(tail: &[u32]) -> (r: Oid)
    ensures
        r@ == host_root() + tail@,
{
    let base = Oid::new(vec![1, 3, 6, 1, 2, 1, 25]);
    assert(base@ =~= host_root());
    base.extended(tail)
}

/// The handler of the system group, at the time it is built.
pub fn hr_system_handler(snap: &Snapshot) -> (r: FnHandler)
    ensures
        exists|now: LocalTime|
            now.valid() && r.state() == table_state(
                host_root() + seq![1u32],
                #[trigger] system_cells(*snap, now),
            ),
{
    let now = local_now();
    let root = host_oid(&[1]);
    let h = FnHandler::table(root, hr_system_cells(snap, &now));
    assert(h.state() == table_state(host_root() + seq![1u32], system_cells(*snap, now)));
    h
}

/// The handler of the storage group.
pub fn hr_storage_handler(snap: &Snapshot) -> (r: FnHandler)
    requires
        snap.indexable(),
    ensures
        r.state() == table_state(host_root() + seq![2u32], storage_group(*snap)),
{
    FnHandler::table(host_oid(&[2]), hr_storage_cells(snap))
}

/// The handler of the device group.
pub fn hr_device_handler(snap: &Snapshot) -> (r: FnHandler)
    requires
        snap.indexable(),
    ensures
        r.state() == table_state(host_root() + seq![3u32], device_group(*snap)),
{
    FnHandler::table(host_oid(&[3]), raw_device_cells(snap))
}

/// The handler of the table of running software.
pub fn hr_swrun_handler(snap: &Snapshot) -> (r: FnHandler)
    ensures
        r.state() == table_state(host_root() + seq![4u32], swrun_group(snap.processes@)),
{
    FnHandler::table(host_oid(&[4]), raw_swrun_cells(snap.processes.as_slice()))
}

/// The handler of the performance table of running software.
pub fn hr_swrun_perf_handler(snap: &Snapshot) -> (r: FnHandler)
    ensures
        r.state() == table_state(host_root() + seq![5u32], swrun_perf_group(snap.processes@)),
{
    FnHandler::table(host_oid(&[5]), raw_swrun_perf_cells(snap.processes.as_slice()))
}

/// The filesystem table names, for each filesystem, the row of the storage table that describes
/// it.
pub proof fn filesystems_name_their_storage(d: DiskSample, i: int, index: u32)
    requires
        0 <= i <= u32::MAX - 4,
    ensures
        disk_cells(d, i, index).contains(
            cell(
                fs_entry(),
                7,
                (i + 1) as u32,
                ValueView::Integer(disk_row(d, i).index as i64),
            ),
        ),
{
    let c = cell(
        fs_entry(),
        7,
        (i + 1) as u32,
        ValueView::Integer(disk_row(d, i).index as i64),
    );
    assert(disk_cells(d, i, index)[10] == c);
}

/// The size of a filesystem in its units gives back its bytes, but for less than one unit.
pub proof fn storage_size_gives_back_bytes(d: DiskSample, i: int)
    ensures
        ({
            let r = disk_row(d, i);
            let units = units_from(d.total as nat, 4096) as int;
            &&& r.size * units <= d.total < (r.size + 1) * units
            &&& r.size == d.total as int / units
        }),
{
    let total = d.total as nat;
    let units = units_from(total, 4096);
    units_are_least(total, 4096);
    lemma_units_positive(total, 4096);
    let q = total as int / units as int;
    vstd::arithmetic::div_mod::lemma_fundamental_div_mod(total as int, units as int);
    assert(0 <= q) by (nonlinear_arith)
        requires
            q == total as int / units as int,
            units > 0,
            total >= 0,
    ;
    assert(q * units <= total < (q + 1) * units) by (nonlinear_arith)
        requires
            total as int == units as int * q + total as int % units as int,
            0 <= total as int % units as int,
            (total as int % units as int) < units as int,
    ;
}

proof fn lemma_units_positive(total: nat, units: nat)
    requires
        units > 0,
    ensures
        units_from(total, units) > 0,
    decreases total / units,
{
    if total / units > i32::MAX as nat {
        lemma_half_quotient(total, units);
        lemma_units_positive(total, units * 2);
    }
}

/// One block device: its name and what its files say.
#[derive(Debug)]
pub struct BlockDevice {
    /// The name.
    pub name: String,
    /// What the file `removable` holds.
    pub removable: Option<String>,
    /// What the file `ro` holds.
    pub read_only: Option<String>,
    /// What the file `size` holds.
    pub sectors: Option<String>,
}

impl Keyed for BlockDevice {
    open spec fn key(&self) -> Seq<u32> {
        text_key(self.name@)
    }

    fn before(&self, other: &BlockDevice) -> (r: bool) {
        text_before(self.name.as_str(), other.name.as_str())
    }
}

/// Whether a block device stands for a disk, and not for a file or for memory.
pub open spec fn is_disk(d: BlockDevice) -> bool {
    !starts_with(d.name@, "loop"@) && !starts_with(d.name@, "ram"@)
}

/// The block devices that stand for disks.
pub open spec fn disks_of(ds: Seq<BlockDevice>) -> Seq<BlockDevice>
    decreases ds.len(),
{
    if ds.len() == 0 {
        seq![]
    } else if is_disk(ds.last()) {
        disks_of(ds.drop_last()).push(ds.last())
    } else {
        disks_of(ds.drop_last())
    }
}

/// The block devices that stand for disks, by name.
pub fn physical_disks(found: Vec<BlockDevice>) -> (r: Vec<BlockDevice>)
    ensures
        is_stable_sort_of(r@, disks_of(found@)),
        r@.len() == disks_of(found@).len(),
{
    let ghost all = found@;
    let mut todo = into_reversed(found);
    let mut kept: Vec<BlockDevice> = Vec::new();
    let ghost mut n: int = 0;
    assert(all.take(0) =~= Seq::<BlockDevice>::empty());
    while todo.len() > 0
        invariant
            0 <= n <= all.len(),
            todo@.len() == all.len() - n,
            forall|i: int|
                0 <= i < todo@.len() ==> #[trigger] todo@[i] == all[all.len() - 1 - i],
            kept@ == disks_of(all.take(n)),
        decreases todo@.len(),
    {
        assert(todo@[todo@.len() - 1] == all[n]);
        if let Some(d) = todo.pop() {
            proof {
                assert(all.take(n + 1).drop_last() =~= all.take(n));
                assert(all.take(n + 1).last() == d);
                n = n + 1;
            }
            let name = chars_of(d.name.as_str());
            if !begins_with(name.as_slice(), "loop") && !begins_with(name.as_slice(), "ram") {
                kept.push(d);
            }
        }
    }
    assert(all.take(n) =~= all);
    stable_sort(kept)
}

/// The number that a file holds; `default` if it cannot be read.
pub open spec fn file_number(text: Option<Seq<char>>, default: i64) -> i64 {
    match text {
        Some(t) => match signed_value(trim(t), i64::MIN as int, i64::MAX as int) {
            Some(n) => n as i64,
            None => default,
        },
        None => default,
    }
}

/// The unsigned number that a file holds; zero if it cannot be read.
pub open spec fn file_count(text: Option<Seq<char>>) -> u64 {
    match text {
        Some(t) => match unsigned_value(trim(t), 10, u64::MAX as nat) {
            Some(n) => n as u64,
            None => 0,
        },
        None => 0,
    }
}

fn read_sys_bool(text: &Option<String>, default: i64) -> (r: i64)
    ensures
        r == file_number(opt_text(*text), default),
{
    match text {
        Some(t) => {
            let v = chars_of(t.as_str());
            match parse_i64(trimmed(v.as_slice()).as_slice()) {
                Some(n) => n,
                None => default,
            }
        },
        None => default,
    }
}

fn read_sys_u64(text: &Option<String>) -> (r: u64)
    ensures
        r == file_count(opt_text(*text)),
{
    match text {
        Some(t) => {
            let v = chars_of(t.as_str());
            match parse_unsigned(trimmed(v.as_slice()).as_slice(), 10, u64::MAX) {
                Some(n) => n,
                None => 0,
            }
        },
        None => 0,
    }
}

/// The medium of a disk, by its name: hardDisk(6), CD-ROM(11), floppy(3) or other(1).
pub open spec fn media_of(name: Seq<char>) -> i64 {
    if starts_with(name, "sd"@) || starts_with(name, "nvme"@) || starts_with(name, "hd"@)
        || starts_with(name, "vd"@) {
        6
    } else if starts_with(name, "sr"@) || starts_with(name, "scd"@) || starts_with(name, "cd"@) {
        11
    } else if starts_with(name, "fd"@) {
        3
    } else {
        1
    }
}

/// The medium of a disk, by its name.
pub fn classify_disk_media(name: &str) -> (r: i64)
    ensures
        r == media_of(name@),
{
    let n = chars_of(name);
    let v = n.as_slice();
    if begins_with(v, "sd") || begins_with(v, "nvme") || begins_with(v, "hd") || begins_with(
        v,
        "vd",
    ) {
        6
    } else if begins_with(v, "sr") || begins_with(v, "scd") || begins_with(v, "cd") {
        11
    } else if begins_with(v, "fd") {
        3
    } else {
        1
    }
}

/// One row of the disk table.
#[derive(Clone, Copy, Debug, PartialEq, Eq, Structural)]
pub struct DiskStorageRow {
    /// The number of the disk, from one.
    pub index: u32,
    /// readWrite(1) or readOnly(2).
    pub access: i64,
    /// The medium.
    pub media: i64,
    /// true(1) or false(2).
    pub removable: i64,
    /// The bytes, at most the greatest `Integer32`.
    pub capacity: i64,
}

/// The row of the disk number `i`, from zero. A sector has 512 bytes.
pub open spec fn disk_storage_row(d: BlockDevice, i: int) -> DiskStorageRow {
    DiskStorageRow {
        index: (i + 1) as u32,
        access: if file_number(opt_text(d.read_only), 0) != 0 {
            2
        } else {
            1
        },
        media: media_of(d.name@),
        removable: if file_number(opt_text(d.removable), 0) != 0 {
            1
        } else {
            2
        },
        capacity: clamped(file_count(opt_text(d.sectors)) * 512),
    }
}

/// The rows of the disk table.
pub fn disk_storage_rows(disks: &[BlockDevice]) -> (r: Vec<DiskStorageRow>)
    ensures
        r@ == Seq::new(disks@.len(), |i: int| disk_storage_row(disks@[i], i)),
{
    let mut rows: Vec<DiskStorageRow> = Vec::new();
    let mut i: usize = 0;
    while i < disks.len()
        invariant
            i <= disks@.len(),
            rows@ =~= Seq::new(i as nat, |k: int| disk_storage_row(disks@[k], k)),
        decreases disks@.len() - i,
    {
        let d = &disks[i];
        let sectors: u64 = read_sys_u64(&d.sectors);
        let capacity: i64 = if sectors > i32::MAX as u64 / 512 {
            i32::MAX as i64
        } else {
            (sectors * 512) as i64
        };
        let access: i64 = if read_sys_bool(&d.read_only, 0) != 0 {
            2
        } else {
            1
        };
        let removable: i64 = if read_sys_bool(&d.removable, 0) != 0 {
            1
        } else {
            2
        };
        let index: u32 = row_number(i);
        rows.push(
            DiskStorageRow {
                index,
                access,
                media: classify_disk_media(d.name.as_str()),
                removable,
                capacity,
            },
        );
        i += 1;
    }
    rows
}

/// The row prefix of the disk table.
pub open spec fn disk_storage_entry() -> Seq<u32> {
    seq![1u32, 3, 6, 1, 2, 1, 25, 3, 6, 1, 1]
}

impl Row for DiskStorageRow {
    open spec fn row(&self) -> Seq<CellView> {
        let e = disk_storage_entry();
        seq![
            cell(e, 1, self.index, ValueView::Integer(self.index as i64)),
            cell(e, 2, self.index, ValueView::Integer(self.access)),
            cell(e, 3, self.index, ValueView::Integer(self.media)),
            cell(e, 4, self.index, ValueView::Integer(self.removable)),
            cell(e, 5, self.index, ValueView::Integer(self.capacity)),
        ]
    }

    fn push_row(&self, out: &mut Vec<(Oid, Value)>) {
        let e: [u32; 11] = [1, 3, 6, 1, 2, 1, 25, 3, 6, 1, 1];
        assert(e@ =~= disk_storage_entry());
        let ghost before = cells(out@);
        push_row_cell(out, &e, 1, self.index, Value::Integer(self.index as i64));
        push_row_cell(out, &e, 2, self.index, Value::Integer(self.access));
        push_row_cell(out, &e, 3, self.index, Value::Integer(self.media));
        push_row_cell(out, &e, 4, self.index, Value::Integer(self.removable));
        push_row_cell(out, &e, 5, self.index, Value::Integer(self.capacity));
        assert(cells(out@) =~= before + self.row());
    }
}

/// The cells of the disk table.
pub open spec fn disk_storage_group(disks: Seq<BlockDevice>) -> Seq<CellView> {
    all_rows(Seq::new(disks.len(), |i: int| disk_storage_row(disks[i], i)))
}

/// The handler of the disk table, for disks in the order of their names.
pub fn hr_disk_storage_handler(disks: &[BlockDevice]) -> (r: FnHandler)
    ensures
        r.state() == table_state(host_root() + seq![3u32, 6], disk_storage_group(disks@)),
{
    let rows = disk_storage_rows(disks);
    FnHandler::table(host_oid(&[3, 6]), row_cells(rows.as_slice()))
}

/// One row of the partition table.
#[derive(Debug)]
pub struct PartitionRow {
    /// The number of the partition on its disk, from one.
    pub index: u32,
    /// The number of its disk, from one.
    pub parent: u32,
    /// The name of the partition.
    pub label: String,
    /// What identifies the partition.
    pub id: Vec<u8>,
    /// The size in kilobytes.
    pub size: i64,
    /// The type of the filesystem.
    pub fs_type: String,
}

/// The mathematical content of a [`PartitionRow`].
#[verifier::ext_equal]
pub struct PartitionView {
    pub index: u32,
    pub parent: u32,
    pub label: Seq<char>,
    pub id: Seq<u8>,
    pub size: i64,
    pub fs_type: Seq<char>,
}

impl View for PartitionRow {
    type V = PartitionView;

    open spec fn view(&self) -> PartitionView {
        PartitionView {
            index: self.index,
            parent: self.parent,
            label: self.label@,
            id: self.id@,
            size: self.size,
            fs_type: self.fs_type@,
        }
    }
}

/// The rows of a list.
pub open spec fn partition_views(v: Seq<PartitionRow>) -> Seq<PartitionView> {
    v.map_values(|r: PartitionRow| r@)
}

/// The names of disks.
pub open spec fn disk_names(ds: Seq<BlockDevice>) -> Seq<Seq<char>> {
    ds.map_values(|d: BlockDevice| d.name@)
}

/// Which of the first `n` disks a partition is on: the one with the longest name that begins the
/// name of the partition.
pub open spec fn parent_among(names: Seq<Seq<char>>, name: Seq<char>, n: nat) -> Option<int>
    decreases n,
{
    if n == 0 {
        None
    } else {
        let best = parent_among(names, name, (n - 1) as nat);
        let k = n - 1;
        if starts_with(name, names[k]) && match best {
            Some(b) => names[k].len() > names[b].len(),
            None => true,
        } {
            Some(k)
        } else {
            best
        }
    }
}

/// Which disk a partition is on.
pub open spec fn parent_of(names: Seq<Seq<char>>, name: Seq<char>) -> Option<int> {
    parent_among(names, name, names.len())
}

/// The disk, the name and the size of the partition in a line `major minor blocks name`; none if
/// the line is another, or it names no partition of a known disk.
pub open spec fn partition_line(line: Seq<char>, names: Seq<Seq<char>>) -> Option<
    (int, Seq<char>, int),
> {
    let w = words(line);
    if w.len() < 4 {
        None
    } else {
        match (signed_value(w[2], i64::MIN as int, i64::MAX as int), parent_of(names, w[3])) {
            (Some(blocks), Some(p)) => if names[p] == w[3] {
                None
            } else {
                Some((p, w[3], blocks))
            },
            _ => None,
        }
    }
}

/// How many rows are on the disk `parent`.
pub open spec fn on_disk(rows: Seq<PartitionView>, parent: u32) -> nat
    decreases rows.len(),
{
    if rows.len() == 0 {
        0
    } else {
        on_disk(rows.drop_last(), parent) + if rows.last().parent == parent {
            1nat
        } else {
            0nat
        }
    }
}

/// The partitions that lines list, numbered from one on each disk.
pub open spec fn partitions_of(ls: Seq<Seq<char>>, names: Seq<Seq<char>>) -> Seq<PartitionView>
    decreases ls.len(),
{
    if ls.len() == 0 {
        seq![]
    } else {
        let before = partitions_of(ls.drop_last(), names);
        match partition_line(ls.last(), names) {
            Some((p, label, blocks)) => {
                let parent = (p + 1) as u32;
                let index = on_disk(before, parent) + 1;
                before.push(
                    PartitionView {
                        index: index as u32,
                        parent,
                        label,
                        id: utf8(names[p] + decimal(index as nat)),
                        size: blocks as i64,
                        fs_type: seq![],
                    },
                )
            },
            None => before,
        }
    }
}

/// The partitions that the text of the partition list holds below its heading.
pub open spec fn listed_partitions(contents: Seq<char>, disks: Seq<BlockDevice>) -> Seq<
    PartitionView,
> {
    let ls = lines(contents);
    partitions_of(
        if ls.len() > 0 {
            ls.skip(1)
        } else {
            ls
        },
        disk_names(disks),
    )
}

proof fn lemma_on_disk_bound(rows: Seq<PartitionView>, parent: u32)
    ensures
        on_disk(rows, parent) <= rows.len(),
    decreases rows.len(),
{
    if rows.len() > 0 {
        lemma_on_disk_bound(rows.drop_last(), parent);
    }
}

proof fn lemma_parent_bound(names: Seq<Seq<char>>, name: Seq<char>, n: nat)
    requires
        n <= names.len(),
    ensures
        parent_among(names, name, n) matches Some(k) ==> 0 <= k < n && starts_with(
            name,
            names[k],
        ) && forall|j: int|
            0 <= j < n && starts_with(name, #[trigger] names[j]) ==> names[j].len()
                <= names[k].len(),
        parent_among(names, name, n) is None ==> forall|j: int|
            0 <= j < n ==> !starts_with(name, #[trigger] names[j]),
    decreases n,
{
    if n > 0 {
        lemma_parent_bound(names, name, (n - 1) as nat);
    }
}

/// A partition is on the disk with the longest name that begins its own; it is on none if no
/// disk's name does.
pub proof fn parent_has_longest_name(names: Seq<Seq<char>>, name: Seq<char>)
    ensures
        parent_of(names, name) matches Some(k) ==> 0 <= k < names.len() && starts_with(
            name,
            names[k],
        ) && forall|j: int|
            0 <= j < names.len() && starts_with(name, #[trigger] names[j]) ==> names[j].len()
                <= names[k].len(),
        parent_of(names, name) is None ==> forall|j: int|
            0 <= j < names.len() ==> !starts_with(name, #[trigger] names[j]),
{
    lemma_parent_bound(names, name, names.len());
}

fn find_parent(disks: &[BlockDevice], name: &[char]) -> (r: Option<usize>)
    ensures
        match r {
            Some(k) => parent_of(disk_names(disks@), name@) == Some(k as int) && k < disks@.len(),
            None => parent_of(disk_names(disks@), name@) is None,
        },
{
    let ghost names = disk_names(disks@);
    let mut best: Option<usize> = None;
    let mut best_len: usize = 0;
    let mut k: usize = 0;
    while k < disks.len()
        invariant
            k <= disks@.len(),
            names == disk_names(disks@),
            match best {
                Some(b) => parent_among(names, name@, k as nat) == Some(b as int) && b < k
                    && best_len == names[b as int].len(),
                None => parent_among(names, name@, k as nat) is None,
            },
        decreases disks@.len() - k,
    {
        let d = chars_of(disks[k].name.as_str());
        assert(names[k as int] == d@);
        if begins_with(name, disks[k].name.as_str()) && (best.is_none() || d.len() > best_len) {
            best = Some(k);
            best_len = d.len();
        }
        k += 1;
    }
    best
}

fn count_on_disk(rows: &[PartitionRow], parent: u32) -> (r: usize)
    ensures
        r == on_disk(partition_views(rows@), parent),
        r <= rows@.len(),
{
    let ghost all = partition_views(rows@);
    let mut n: usize = 0;
    let mut i: usize = 0;
    assert(all.take(0) =~= Seq::<PartitionView>::empty());
    while i < rows.len()
        invariant
            i <= rows@.len(),
            all == partition_views(rows@),
            n == on_disk(all.take(i as int), parent),
            n <= i,
        decreases rows@.len() - i,
    {
        proof {
            assert(all.take(i + 1).drop_last() =~= all.take(i as int));
            assert(all.take(i + 1).last() == rows@[i as int]@);
        }
        if rows[i].parent == parent {
            n += 1;
        }
        i += 1;
    }
    assert(all.take(i as int) =~= all);
    n
}

/// The partition of one line, behind those of the lines before it.
fn push_partition(rows: &mut Vec<PartitionRow>, line: &[char], disks: &[BlockDevice])
    requires
        disks@.len() < u32::MAX,
        old(rows)@.len() < u32::MAX,
    ensures
        partition_views(final(rows)@) == ({
            let before = partition_views(old(rows)@);
            let names = disk_names(disks@);
            match partition_line(line@, names) {
                Some((p, label, blocks)) => {
                    let parent = (p + 1) as u32;
                    let index = on_disk(before, parent) + 1;
                    before.push(
                        PartitionView {
                            index: index as u32,
                            parent,
                            label,
                            id: utf8(names[p] + decimal(index as nat)),
                            size: blocks as i64,
                            fs_type: seq![],
                        },
                    )
                },
                None => before,
            }
        }),
        final(rows)@.len() <= old(rows)@.len() + 1,
{
    let ghost names = disk_names(disks@);
    let w = split_words(line);
    let ghost ws = texts(w@);
    if w.len() < 4 {
        return;
    }
    assert(ws[2] == w@[2]@);
    assert(ws[3] == w@[3]@);
    let blocks: i64 = match parse_i64(w[2].as_slice()) {
        Some(b) => b,
        None => {
            return;
        },
    };
    let name = w[3].as_slice();
    let p: usize = match find_parent(disks, name) {
        Some(p) => p,
        None => {
            return;
        },
    };
    let disk = chars_of(disks[p].name.as_str());
    assert(names[p as int] == disk@);
    if chars_eq(disk.as_slice(), name) {
        return;
    }
    let parent: u32 = (p + 1) as u32;
    let index: usize = count_on_disk(rows.as_slice(), parent) + 1;
    let mut id = disks[p].name.clone();
    push_decimal(&mut id, index as u64);
    let ghost before = rows@;
    let fs_type = String::new();
    assert(fs_type@ =~= Seq::<char>::empty());
    rows.push(
        PartitionRow {
            index: index as u32,
            parent,
            label: string_of(name),
            id: bytes_of(id.as_str()),
            size: blocks,
            fs_type,
        },
    );
    assert(partition_views(rows@) =~= partition_views(before).push(rows@.last()@));
}

/// Whether the flat numbers of partitions fit in 32 bits.
pub open spec fn partitions_fit(contents: Seq<char>, disks: Seq<BlockDevice>) -> bool {
    disks.len() * 256 + lines(contents).len() <= u32::MAX
}

/// The partitions that the text of the partition list holds.
pub fn partition_rows(contents: &str, disks: &[BlockDevice]) -> (r: Vec<PartitionRow>)
    requires
        partitions_fit(contents@, disks@),
    ensures
        partition_views(r@) == listed_partitions(contents@, disks@),
        r@.len() <= lines(contents@).len(),
        forall|i: int| 0 <= i < r@.len() ==> (#[trigger] r@[i]).parent <= disks@.len(),
        forall|i: int| 0 <= i < r@.len() ==> (#[trigger] r@[i]).index <= r@.len(),
{
    let v = chars_of(contents);
    let ls = split_lines(v.as_slice());
    let ghost names = disk_names(disks@);
    let ghost all = texts(ls@);
    let ghost below = if all.len() > 0 {
        all.skip(1)
    } else {
        all
    };
    let mut rows: Vec<PartitionRow> = Vec::new();
    proof {
        assert(below.take(0) =~= Seq::<Seq<char>>::empty());
        assert(partition_views(rows@) =~= Seq::<PartitionView>::empty());
    }
    if ls.len() == 0 {
        assert(below =~= below.take(0));
        return rows;
    }
    let mut i: usize = 1;
    while i < ls.len()
        invariant
            1 <= i <= ls@.len(),
            all == texts(ls@),
            all == lines(contents@),
            below == all.skip(1),
            names == disk_names(disks@),
            partitions_fit(contents@, disks@),
            partition_views(rows@) == partitions_of(below.take(i - 1), names),
            rows@.len() < i,
            forall|k: int| 0 <= k < rows@.len() ==> (#[trigger] rows@[k]).parent <= disks@.len(),
            forall|k: int| 0 <= k < rows@.len() ==> (#[trigger] rows@[k]).index <= rows@.len(),
        decreases ls@.len() - i,
    {
        let ghost before = rows@;
        proof {
            assert(below.take(i as int).drop_last() =~= below.take(i - 1));
            assert(below.take(i as int).last() == ls@[i as int]@);
        }
        push_partition(&mut rows, ls[i].as_slice(), disks);
        proof {
            let views = partition_views(rows@);
            let old_views = partition_views(before);
            let line = ls@[i as int]@;
            lemma_parent_bound(names, words(line)[3], names.len());
            assert(views.len() == rows@.len());
            assert forall|k: int| 0 <= k < rows@.len() implies (#[trigger] rows@[k]).parent
                <= disks@.len() && rows@[k].index <= rows@.len() by {
                assert(views[k] == rows@[k]@);
                if k < before.len() {
                    assert(old_views[k] == before[k]@);
                    assert(views[k] == old_views[k]);
                } else {
                    match partition_line(line, names) {
                        Some((p, label, blocks)) => {
                            assert(0 <= p < disks@.len());
                            lemma_on_disk_bound(old_views, (p + 1) as u32);
                            assert(views[k].parent == p + 1);
                        },
                        None => {},
                    }
                }
            }
        }
        i += 1;
    }
    assert(below.take(i - 1) =~= below);
    rows
}

/// The row prefix of the partition table.
pub open spec fn partition_entry() -> Seq<u32> {
    seq![1u32, 3, 6, 1, 2, 1, 25, 3, 7, 1, 1]
}

/// The cells of one partition, numbered by its disk and its own number.
pub open spec fn partition_cells(r: PartitionView) -> Seq<CellView> {
    let e = partition_entry();
    let flat = (r.parent * 256 + r.index) as u32;
    seq![
        cell(e, 1, flat, ValueView::Integer(flat as i64)),
        cell(e, 2, flat, ValueView::OctetString(utf8(r.label))),
        cell(e, 3, flat, ValueView::OctetString(r.id)),
        cell(e, 4, flat, ValueView::Integer(clamped(r.size as int))),
        cell(e, 5, flat, ValueView::OctetString(utf8(r.fs_type))),
    ]
}

/// The cells of partitions, one after the other.
pub open spec fn partition_group(rows: Seq<PartitionView>) -> Seq<CellView>
    decreases rows.len(),
{
    if rows.len() == 0 {
        seq![]
    } else {
        partition_group(rows.drop_last()) + partition_cells(rows.last())
    }
}

fn raw_partition_cells(rows: &[PartitionRow]) -> (r: Vec<(Oid, Value)>)
    requires
        forall|i: int|
            0 <= i < rows@.len() ==> (#[trigger] rows@[i]).parent * 256 + rows@[i].index
                <= u32::MAX,
    ensures
        cells(r@) == partition_group(partition_views(rows@)),
{
    let e: [u32; 11] = [1, 3, 6, 1, 2, 1, 25, 3, 7, 1, 1];
    assert(e@ =~= partition_entry());
    let ghost all = partition_views(rows@);
    let mut out: Vec<(Oid, Value)> = Vec::new();
    let mut i: usize = 0;
    proof {
        assert(all.take(0) =~= Seq::<PartitionView>::empty());
        assert(cells(out@) =~= Seq::<CellView>::empty());
    }
    while i < rows.len()
        invariant
            i <= rows@.len(),
            e@ == partition_entry(),
            all == partition_views(rows@),
            forall|i: int|
                0 <= i < rows@.len() ==> (#[trigger] rows@[i]).parent * 256 + rows@[i].index
                    <= u32::MAX,
            cells(out@) == partition_group(all.take(i as int)),
        decreases rows@.len() - i,
    {
        let ghost before = cells(out@);
        let r = &rows[i];
        proof {
            assert(all.take(i + 1).drop_last() =~= all.take(i as int));
            assert(all.take(i + 1).last() == r@);
        }
        let flat: u32 = r.parent * 256 + r.index;
        push_row_cell(&mut out, &e, 1, flat, Value::Integer(flat as i64));
        push_row_cell(&mut out, &e, 2, flat, text_value(r.label.as_str()));
        push_row_cell(
            &mut out,
            &e,
            3,
            flat,
            Value::OctetString(copy_bytes(r.id.as_slice())),
        );
        push_row_cell(&mut out, &e, 4, flat, Value::Integer(clamp_i32(r.size)));
        push_row_cell(&mut out, &e, 5, flat, text_value(r.fs_type.as_str()));
        assert(cells(out@) =~= before + partition_cells(r@));
        i += 1;
    }
    assert(all.take(i as int) =~= all);
    out
}

/// The handler of the partition table, for the text of the partition list and disks in the order
/// of their names.
pub fn hr_partition_handler(contents: &str, disks: &[BlockDevice]) -> (r: FnHandler)
    requires
        partitions_fit(contents@, disks@),
    ensures
        r.state() == table_state(host_root() + seq![3u32, 7], partition_group(listed_partitions(contents@, disks@))),
{
    let rows = partition_rows(contents, disks);
    proof {
        assert forall|i: int| 0 <= i < rows@.len() implies (#[trigger] rows@[i]).parent * 256
            + rows@[i].index <= u32::MAX by {}
    }
    FnHandler::table(host_oid(&[3, 7]), raw_partition_cells(rows.as_slice()))
}

/// The row prefix of the network table.
pub open spec fn network_entry() -> Seq<u32> {
    seq![1u32, 3, 6, 1, 2, 1, 25, 3, 4, 1, 1]
}

/// The cells of the network table: the `ifIndex` of each interface, numbered from one.
pub open spec fn network_group(fs: Seq<Interface>) -> Seq<CellView> {
    Seq::new(
        fs.len(),
        |i: int| cell(network_entry(), 1, (i + 1) as u32, ValueView::Integer(fs[i].index as i64)),
    )
}

fn raw_network_cells(interfaces: &[Interface]) -> (r: Vec<(Oid, Value)>)
    ensures
        cells(r@) == network_group(interfaces@),
{
    let e: [u32; 11] = [1, 3, 6, 1, 2, 1, 25, 3, 4, 1, 1];
    assert(e@ =~= network_entry());
    let mut out: Vec<(Oid, Value)> = Vec::new();
    let mut i: usize = 0;
    while i < interfaces.len()
        invariant
            i <= interfaces@.len(),
            e@ == network_entry(),
            cells(out@) =~= network_group(interfaces@.take(i as int)),
        decreases interfaces@.len() - i,
    {
        let index: u32 = row_number(i);
        push_row_cell(&mut out, &e, 1, index, Value::Integer(interfaces[i].index as i64));
        i += 1;
    }
    assert(interfaces@.take(i as int) =~= interfaces@);
    out
}

/// The cells of the network table, in order.
pub fn hr_network_cells(snap: &Snapshot) -> (r: Vec<(Oid, Value)>)
    ensures
        is_table_of(cells(r@), network_group(snap.interfaces@)),
{
    collect_cells(raw_network_cells(snap.interfaces.as_slice()))
}

/// The handler of the network table.
pub fn hr_network_handler(snap: &Snapshot) -> (r: FnHandler)
    ensures
        r.state() == table_state(host_root() + seq![3u32, 4], network_group(snap.interfaces@)),
{
    FnHandler::table(host_oid(&[3, 4]), raw_network_cells(snap.interfaces.as_slice()))
}

/// The handler of the printer table, which has no rows.
pub fn hr_printer_handler() -> (r: FnHandler)
    ensures
        r.state() == (FnState { root: host_root() + seq![3u32, 5], cells: seq![] }),
{
    FnHandler::empty(host_oid(&[3, 5]))
}

/// The handler of the table of installed software, which has no rows.
pub fn hr_sw_installed_handler() -> (r: FnHandler)
    ensures
        r.state() == (FnState { root: host_root() + seq![6u32, 3], cells: seq![] }),
{
    FnHandler::empty(host_oid(&[6, 3]))
}

/// The handler of the table of running software whose status can be set: setting it to invalid(4)
/// asks for the end of the process.
#[derive(Debug)]
pub struct HrSWRunHandler {
    table: FnHandler,
    signals: Vec<u32>,
}

/// The state of a [`HrSWRunHandler`]: the cells, and the processes that are to end.
#[verifier::ext_equal]
pub struct SwRunState {
    pub root: Seq<u32>,
    pub cells: Seq<CellView>,
    pub signals: Seq<u32>,
}

/// The state for the given processes, before any was asked to end.
pub open spec fn swrun_start(ps: Seq<ProcSample>) -> SwRunState {
    SwRunState {
        root: host_root() + seq![4u32],
        cells: table_of(swrun_group(ps)),
        signals: seq![],
    }
}

/// The prefix of `hrSWRunStatus`.
pub open spec fn swrun_status() -> Seq<u32> {
    seq![1u32, 3, 6, 1, 2, 1, 25, 4, 2, 1, 7]
}

/// Whether a status may be set: only that of a process in the table, and to a number from one to
/// four.
pub open spec fn swrun_verdict(s: SwRunState, oid: Seq<u32>, value: ValueView) -> Result<
    (),
    ErrorStatus,
> {
    if !is_prefix(swrun_status(), oid) || oid.len() != swrun_status().len() + 1 {
        Err(ErrorStatus::NotWritable)
    } else {
        match find(s.cells, oid) {
            None => Err(ErrorStatus::NoCreation),
            Some(current) => if !compatible(current, value) {
                Err(ErrorStatus::WrongType)
            } else {
                match value {
                    ValueView::Integer(v) => if 1 <= v <= 4 {
                        Ok(())
                    } else {
                        Err(ErrorStatus::WrongValue)
                    },
                    _ => Err(ErrorStatus::WrongType),
                }
            },
        }
    }
}

impl HrSWRunHandler {
    /// A handler for the processes of a snapshot.
    pub fn new(snap: &Snapshot) -> (r: HrSWRunHandler)
        ensures
            r.state() == swrun_start(snap.processes@),
    {
        let r = HrSWRunHandler { table: hr_swrun_handler(snap), signals: Vec::new() };
        assert(r.state() =~= swrun_start(snap.processes@));
        r
    }

    /// The processes that were asked to end since the handler was made.
    pub fn signals(&self) -> (r: &[u32])
        ensures
            r@ == self.state().signals,
    {
        self.signals.as_slice()
    }
}

impl MibHandler for HrSWRunHandler {
    type State = SwRunState;

    closed spec fn state(&self) -> SwRunState {
        SwRunState {
            root: self.table.state().root,
            cells: self.table.state().cells,
            signals: self.signals@,
        }
    }

    open spec fn root_of(s: SwRunState) -> Seq<u32> {
        s.root
    }

    open spec fn get_of(s: SwRunState, oid: Seq<u32>) -> Option<ValueView> {
        find(s.cells, oid)
    }

    open spec fn next_of(s: SwRunState, oid: Seq<u32>) -> Option<(Seq<u32>, ValueView)> {
        find_next(s.cells, oid)
    }

    open spec fn prepare_of(s: SwRunState, oid: Seq<u32>, value: ValueView) -> (
        SwRunState,
        Result<(), ErrorStatus>,
    ) {
        (s, swrun_verdict(s, oid, value))
    }

    open spec fn commit_of(s: SwRunState, oid: Seq<u32>, value: ValueView) -> (
        SwRunState,
        Result<(), ErrorStatus>,
    ) {
        if value == ValueView::Integer(4) && last_arc(oid) > 0 {
            (SwRunState { signals: s.signals.push(last_arc(oid)), ..s }, Ok(()))
        } else {
            (s, Ok(()))
        }
    }

    open spec fn undo_of(s: SwRunState, oid: Seq<u32>, value: ValueView) -> (
        SwRunState,
        Result<(), ErrorStatus>,
    ) {
        (s, Ok(()))
    }

    fn root(&self) -> (r: &Oid) {
        self.table.root()
    }

    fn get(&self, oid: &Oid) -> (r: Option<Value>) {
        self.table.get(oid)
    }

    fn get_next(&self, oid: &Oid) -> (r: Option<Reading>) {
        self.table.get_next(oid)
    }

    fn prepare_set(&mut self, oid: &Oid, value: &Value) -> (r: Result<(), ErrorStatus>) {
        let status = Oid::new(vec![1, 3, 6, 1, 2, 1, 25, 4, 2, 1, 7]);
        assert(status@ =~= swrun_status());
        if !status.is_prefix_of(oid) || oid.len() != 12 {
            return Err(ErrorStatus::NotWritable);
        }
        let current = match self.table.get(oid) {
            Some(c) => c,
            None => {
                return Err(ErrorStatus::NoCreation);
            },
        };
        if !types_compatible(&current, value) {
            return Err(ErrorStatus::WrongType);
        }
        match value {
            Value::Integer(v) => {
                if 1 <= *v && *v <= 4 {
                    Ok(())
                } else {
                    Err(ErrorStatus::WrongValue)
                }
            },
            _ => Err(ErrorStatus::WrongType),
        }
    }

    fn commit_set(&mut self, oid: &Oid, value: &Value) -> (r: Result<(), ErrorStatus>) {
        let arcs = oid.as_slice();
        let pid: u32 = if arcs.len() == 0 {
            0
        } else {
            arcs[arcs.len() - 1]
        };
        let invalid = match value {
            Value::Integer(v) => *v == 4,
            _ => false,
        };
        if invalid && pid > 0 {
            self.signals.push(pid);
        }
        Ok(())
    }

    fn undo_set(&mut self, oid: &Oid, value: &Value) -> (r: Result<(), ErrorStatus>) {
        Ok(())
    }
}

} // verus!
