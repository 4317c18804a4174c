//! What the host tables answer, in terms of what was sampled.

use vstd::prelude::*;

use crate::cells::all_rows;
use crate::cells::Row;
use crate::hardware::FsType;
use crate::mibgroup::collector::CpuSample;
use crate::mibgroup::collector::DiskSample;
use crate::mibgroup::collector::ProcSample;
use crate::mibgroup::collector::Snapshot;
use crate::mibgroup::host::all_cpu_cells;
use crate::mibgroup::host::all_disk_cells;
use crate::mibgroup::host::all_storage_cells;
use crate::mibgroup::host::cpu_cells;
use crate::mibgroup::host::date_and_time_of;
use crate::mibgroup::host::device_group;
use crate::mibgroup::host::disk_cells;
use crate::mibgroup::host::disk_rows;
use crate::mibgroup::host::disk_storage_row;
use crate::mibgroup::host::disks_of;
use crate::mibgroup::host::media_of;
use crate::mibgroup::host::memory_row;
use crate::mibgroup::host::network_group;
use crate::mibgroup::host::partition_cells;
use crate::mibgroup::host::partition_group;
use crate::mibgroup::host::performance_cells;
use crate::mibgroup::host::process_cells;
use crate::mibgroup::host::quotient;
use crate::mibgroup::host::storage_cells;
use crate::mibgroup::host::storage_group;
use crate::mibgroup::host::storage_rows_of;
use crate::mibgroup::host::swrun_group;
use crate::mibgroup::host::swrun_perf_group;
use crate::mibgroup::host::system_cells;
use crate::mibgroup::host::units_from;
use crate::mibgroup::host::BlockDevice;
use crate::mibgroup::host::DiskStorageRow;
use crate::mibgroup::host::LocalTime;
use crate::mibgroup::host::PartitionView;
use crate::mibgroup::host::StorageView;
use crate::mibgroup::interfaces::Interface;
use crate::table_laws::flat;
use crate::table_laws::last_cell_answers;
use crate::table_laws::later_cells_answer_first;
use crate::table_laws::lemma_cell_answers;
use crate::table_laws::lemma_row_cell;
use crate::table_laws::lemma_rows_lack;
use crate::table_laws::table_answer;
use crate::text::signed_decimal;
use crate::text::signed_value;
use crate::text::starts_with;
use crate::text::trim;
use crate::text::unsigned_value;
use crate::value::utf8;
use crate::value::ValueView;

verus! {

/// The nearest number from zero to the greatest `Integer32`.
pub open spec fn within(v: int) -> i64 {
    vstd::math::max(0, vstd::math::min(v, 0x7fff_ffff)) as i64
}

proof fn lemma_storage_is_listed_rows(areas: Seq<StorageView>)
    ensures
        all_storage_cells(areas) == flat(Seq::new(areas.len(), |i: int| storage_cells(areas[i]))),
    decreases areas.len(),
{
    let rows = Seq::new(areas.len(), |i: int| storage_cells(areas[i]));
    if areas.len() > 0 {
        let t = areas.drop_last();
        lemma_storage_is_listed_rows(t);
        assert(rows.drop_last() =~= Seq::new(t.len(), |i: int| storage_cells(t[i])));
        assert(rows.last() == storage_cells(areas.last()));
        assert(all_storage_cells(areas) == all_storage_cells(t) + rows.last());
    } else {
        assert(all_storage_cells(areas) =~= flat(rows));
    }
}

proof fn lemma_storage_is_listed_shape(x: StorageView, i: int)
    ensures
        storage_cells(x).len() == 6,
        forall|j: int|
            0 <= j < 6
                ==> (#[trigger] storage_cells(x)[j]).0.len() >= 11 && storage_cells(x)[j].0.skip(11)
                == seq![x.index],
{
    let row = storage_cells(x);
    let ix = seq![x.index];
    assert forall|j: int| 0 <= j < 6 implies (#[trigger] row[j]).0.len() >= 11 && row[j].0.skip(
        11,
    ) == ix by {
        if j == 0 {
            assert(row[0].0.skip(11) =~= ix);
        }         else if j == 1 {
            assert(row[1].0.skip(11) =~= ix);
        }         else if j == 2 {
            assert(row[2].0.skip(11) =~= ix);
        }         else if j == 3 {
            assert(row[3].0.skip(11) =~= ix);
        }         else if j == 4 {
            assert(row[4].0.skip(11) =~= ix);
        }         else {
            assert(row[5].0.skip(11) =~= ix);
        }
    }
}

/// `hrStorageTable` answers for each storage area with its own kind, description, unit, size and
/// use.
pub proof fn storage_is_listed(areas: Seq<StorageView>, k: int)
    requires
        0 <= k < areas.len(),
        forall|j: int| k < j < areas.len() ==> #[trigger] areas[j].index != areas[k].index,
    ensures
        ({
            let x = areas[k];
            let t = all_storage_cells(areas);
            let at = seq![x.index];
            &&& table_answer(t, seq![1u32, 3, 6, 1, 2, 1, 25, 2, 3, 1, 1] + at) == Some(
                ValueView::Integer(x.index as i64),
            )
            &&& table_answer(t, seq![1u32, 3, 6, 1, 2, 1, 25, 2, 3, 1, 2] + at) == Some(
                ValueView::Oid(x.type_oid),
            )
            &&& table_answer(t, seq![1u32, 3, 6, 1, 2, 1, 25, 2, 3, 1, 3] + at) == Some(
                ValueView::OctetString(utf8(x.descr)),
            )
            &&& table_answer(t, seq![1u32, 3, 6, 1, 2, 1, 25, 2, 3, 1, 4] + at) == Some(
                ValueView::Integer(x.alloc_units),
            )
            &&& table_answer(t, seq![1u32, 3, 6, 1, 2, 1, 25, 2, 3, 1, 5] + at) == Some(
                ValueView::Integer(x.size),
            )
            &&& table_answer(t, seq![1u32, 3, 6, 1, 2, 1, 25, 2, 3, 1, 6] + at) == Some(
                ValueView::Integer(x.used),
            )
        }),
{
    let rows = Seq::new(areas.len(), |i: int| storage_cells(areas[i]));
    let ids = Seq::new(areas.len(), |i: int| seq![areas[i].index]);
    lemma_storage_is_listed_rows(areas);
    assert forall|r: int, j: int|
        #![trigger rows[r][j]]
        k <= r < rows.len() && 0 <= j < rows[r].len() implies rows[r][j].0.len() >= 11
            && rows[r][j].0.skip(11) == ids[r] by {
        lemma_storage_is_listed_shape(areas[r], r);
    }
    assert forall|r: int| k < r < rows.len() implies #[trigger] ids[r] != ids[k] by {
        let p = seq![areas[r].index];
        let q = seq![areas[k].index];
        assert(p[0] != q[0]);
    }
    let row = rows[k];
    let at = ids[k];
    lemma_storage_is_listed_shape(areas[k], k);
    assert(row[0].0 =~= seq![1u32, 3, 6, 1, 2, 1, 25, 2, 3, 1, 1] + at);
    lemma_row_cell(rows, 11, ids, k, 0);
    assert(row[1].0 =~= seq![1u32, 3, 6, 1, 2, 1, 25, 2, 3, 1, 2] + at);
    lemma_row_cell(rows, 11, ids, k, 1);
    assert(row[2].0 =~= seq![1u32, 3, 6, 1, 2, 1, 25, 2, 3, 1, 3] + at);
    lemma_row_cell(rows, 11, ids, k, 2);
    assert(row[3].0 =~= seq![1u32, 3, 6, 1, 2, 1, 25, 2, 3, 1, 4] + at);
    lemma_row_cell(rows, 11, ids, k, 3);
    assert(row[4].0 =~= seq![1u32, 3, 6, 1, 2, 1, 25, 2, 3, 1, 5] + at);
    lemma_row_cell(rows, 11, ids, k, 4);
    assert(row[5].0 =~= seq![1u32, 3, 6, 1, 2, 1, 25, 2, 3, 1, 6] + at);
    lemma_row_cell(rows, 11, ids, k, 5);
}

proof fn lemma_processes_are_listed_rows(ps: Seq<ProcSample>)
    ensures
        swrun_group(ps) == flat(Seq::new(ps.len(), |i: int| process_cells(ps[i]))),
    decreases ps.len(),
{
    let rows = Seq::new(ps.len(), |i: int| process_cells(ps[i]));
    if ps.len() > 0 {
        let t = ps.drop_last();
        lemma_processes_are_listed_rows(t);
        assert(rows.drop_last() =~= Seq::new(t.len(), |i: int| process_cells(t[i])));
        assert(rows.last() == process_cells(ps.last()));
        assert(swrun_group(ps) == swrun_group(t) + rows.last());
    } else {
        assert(swrun_group(ps) =~= flat(rows));
    }
}

proof fn lemma_processes_are_listed_shape(x: ProcSample, i: int)
    ensures
        process_cells(x).len() == 7,
        forall|j: int|
            0 <= j < 7
                ==> (#[trigger] process_cells(x)[j]).0.len() >= 11 && process_cells(x)[j].0.skip(11)
                == seq![x.pid],
{
    let row = process_cells(x);
    let ix = seq![x.pid];
    assert forall|j: int| 0 <= j < 7 implies (#[trigger] row[j]).0.len() >= 11 && row[j].0.skip(
        11,
    ) == ix by {
        if j == 0 {
            assert(row[0].0.skip(11) =~= ix);
        }         else if j == 1 {
            assert(row[1].0.skip(11) =~= ix);
        }         else if j == 2 {
            assert(row[2].0.skip(11) =~= ix);
        }         else if j == 3 {
            assert(row[3].0.skip(11) =~= ix);
        }         else if j == 4 {
            assert(row[4].0.skip(11) =~= ix);
        }         else if j == 5 {
            assert(row[5].0.skip(11) =~= ix);
        }         else {
            assert(row[6].0.skip(11) =~= ix);
        }
    }
}

/// `hrSWRunTable` answers for each process, by its number, with its name, path and state.
pub proof fn processes_are_listed(ps: Seq<ProcSample>, k: int)
    requires
        0 <= k < ps.len(),
        forall|j: int| k < j < ps.len() ==> #[trigger] ps[j].pid != ps[k].pid,
    ensures
        ({
            let x = ps[k];
            let t = swrun_group(ps);
            let at = seq![x.pid];
            &&& table_answer(t, seq![1u32, 3, 6, 1, 2, 1, 25, 4, 2, 1, 1] + at) == Some(
                ValueView::Integer(x.pid as i64),
            )
            &&& table_answer(t, seq![1u32, 3, 6, 1, 2, 1, 25, 4, 2, 1, 2] + at) == Some(
                ValueView::OctetString(utf8(x.name@)),
            )
            &&& table_answer(t, seq![1u32, 3, 6, 1, 2, 1, 25, 4, 2, 1, 3] + at) == Some(
                ValueView::Oid(seq![0u32, 0]),
            )
            &&& table_answer(t, seq![1u32, 3, 6, 1, 2, 1, 25, 4, 2, 1, 4] + at) == Some(
                ValueView::OctetString(utf8(x.path@)),
            )
            &&& table_answer(t, seq![1u32, 3, 6, 1, 2, 1, 25, 4, 2, 1, 5] + at) == Some(
                ValueView::OctetString(seq![]),
            )
            &&& table_answer(t, seq![1u32, 3, 6, 1, 2, 1, 25, 4, 2, 1, 6] + at) == Some(
                ValueView::Integer(4),
            )
            &&& table_answer(t, seq![1u32, 3, 6, 1, 2, 1, 25, 4, 2, 1, 7] + at) == Some(
                ValueView::Integer(x.status),
            )
        }),
{
    let rows = Seq::new(ps.len(), |i: int| process_cells(ps[i]));
    let ids = Seq::new(ps.len(), |i: int| seq![ps[i].pid]);
    lemma_processes_are_listed_rows(ps);
    assert forall|r: int, j: int|
        #![trigger rows[r][j]]
        k <= r < rows.len() && 0 <= j < rows[r].len() implies rows[r][j].0.len() >= 11
            && rows[r][j].0.skip(11) == ids[r] by {
        lemma_processes_are_listed_shape(ps[r], r);
    }
    assert forall|r: int| k < r < rows.len() implies #[trigger] ids[r] != ids[k] by {
        let p = seq![ps[r].pid];
        let q = seq![ps[k].pid];
        assert(p[0] != q[0]);
    }
    let row = rows[k];
    let at = ids[k];
    lemma_processes_are_listed_shape(ps[k], k);
    assert(row[0].0 =~= seq![1u32, 3, 6, 1, 2, 1, 25, 4, 2, 1, 1] + at);
    lemma_row_cell(rows, 11, ids, k, 0);
    assert(row[1].0 =~= seq![1u32, 3, 6, 1, 2, 1, 25, 4, 2, 1, 2] + at);
    lemma_row_cell(rows, 11, ids, k, 1);
    assert(row[2].0 =~= seq![1u32, 3, 6, 1, 2, 1, 25, 4, 2, 1, 3] + at);
    lemma_row_cell(rows, 11, ids, k, 2);
    assert(row[3].0 =~= seq![1u32, 3, 6, 1, 2, 1, 25, 4, 2, 1, 4] + at);
    lemma_row_cell(rows, 11, ids, k, 3);
    assert(row[4].0 =~= seq![1u32, 3, 6, 1, 2, 1, 25, 4, 2, 1, 5] + at);
    lemma_row_cell(rows, 11, ids, k, 4);
    assert(row[5].0 =~= seq![1u32, 3, 6, 1, 2, 1, 25, 4, 2, 1, 6] + at);
    lemma_row_cell(rows, 11, ids, k, 5);
    assert(row[6].0 =~= seq![1u32, 3, 6, 1, 2, 1, 25, 4, 2, 1, 7] + at);
    lemma_row_cell(rows, 11, ids, k, 6);
}

proof fn lemma_process_loads_are_listed_rows(ps: Seq<ProcSample>)
    ensures
        swrun_perf_group(ps) == flat(Seq::new(ps.len(), |i: int| performance_cells(ps[i]))),
    decreases ps.len(),
{
    let rows = Seq::new(ps.len(), |i: int| performance_cells(ps[i]));
    if ps.len() > 0 {
        let t = ps.drop_last();
        lemma_process_loads_are_listed_rows(t);
        assert(rows.drop_last() =~= Seq::new(t.len(), |i: int| performance_cells(t[i])));
        assert(rows.last() == performance_cells(ps.last()));
        assert(swrun_perf_group(ps) == swrun_perf_group(t) + rows.last());
    } else {
        assert(swrun_perf_group(ps) =~= flat(rows));
    }
}

proof fn lemma_process_loads_are_listed_shape(x: ProcSample, i: int)
    ensures
        performance_cells(x).len() == 2,
        forall|j: int|
            0 <= j < 2
                ==> (#[trigger] performance_cells(x)[j]).0.len() >= 11
                    && performance_cells(x)[j].0.skip(11)
                == seq![x.pid],
{
    let row = performance_cells(x);
    let ix = seq![x.pid];
    assert forall|j: int| 0 <= j < 2 implies (#[trigger] row[j]).0.len() >= 11 && row[j].0.skip(
        11,
    ) == ix by {
        if j == 0 {
            assert(row[0].0.skip(11) =~= ix);
        }         else {
            assert(row[1].0.skip(11) =~= ix);
        }
    }
}

/// `hrSWRunPerfTable` answers for each process, by its number, with its processor share and its
/// memory, each within 0 and the greatest `Integer32`.
pub proof fn process_loads_are_listed(ps: Seq<ProcSample>, k: int)
    requires
        0 <= k < ps.len(),
        forall|j: int| k < j < ps.len() ==> #[trigger] ps[j].pid != ps[k].pid,
    ensures
        ({
            let x = ps[k];
            let t = swrun_perf_group(ps);
            let at = seq![x.pid];
            &&& table_answer(t, seq![1u32, 3, 6, 1, 2, 1, 25, 5, 1, 1, 1] + at) == Some(
                ValueView::Integer(within(x.cpu_pct as int)),
            )
            &&& table_answer(t, seq![1u32, 3, 6, 1, 2, 1, 25, 5, 1, 1, 2] + at) == Some(
                ValueView::Integer(within(x.mem_kb as int)),
            )
        }),
{
    let rows = Seq::new(ps.len(), |i: int| performance_cells(ps[i]));
    let ids = Seq::new(ps.len(), |i: int| seq![ps[i].pid]);
    lemma_process_loads_are_listed_rows(ps);
    assert forall|r: int, j: int|
        #![trigger rows[r][j]]
        k <= r < rows.len() && 0 <= j < rows[r].len() implies rows[r][j].0.len() >= 11
            && rows[r][j].0.skip(11) == ids[r] by {
        lemma_process_loads_are_listed_shape(ps[r], r);
    }
    assert forall|r: int| k < r < rows.len() implies #[trigger] ids[r] != ids[k] by {
        let p = seq![ps[r].pid];
        let q = seq![ps[k].pid];
        assert(p[0] != q[0]);
    }
    let row = rows[k];
    let at = ids[k];
    lemma_process_loads_are_listed_shape(ps[k], k);
    assert(row[0].0 =~= seq![1u32, 3, 6, 1, 2, 1, 25, 5, 1, 1, 1] + at);
    lemma_row_cell(rows, 11, ids, k, 0);
    assert(row[1].0 =~= seq![1u32, 3, 6, 1, 2, 1, 25, 5, 1, 1, 2] + at);
    lemma_row_cell(rows, 11, ids, k, 1);
}

proof fn lemma_partitions_are_listed_rows(list: Seq<PartitionView>)
    ensures
        partition_group(list) == flat(Seq::new(list.len(), |i: int| partition_cells(list[i]))),
    decreases list.len(),
{
    let rows = Seq::new(list.len(), |i: int| partition_cells(list[i]));
    if list.len() > 0 {
        let t = list.drop_last();
        lemma_partitions_are_listed_rows(t);
        assert(rows.drop_last() =~= Seq::new(t.len(), |i: int| partition_cells(t[i])));
        assert(rows.last() == partition_cells(list.last()));
        assert(partition_group(list) == partition_group(t) + rows.last());
    } else {
        assert(partition_group(list) =~= flat(rows));
    }
}

proof fn lemma_partitions_are_listed_shape(x: PartitionView, i: int)
    ensures
        partition_cells(x).len() == 5,
        forall|j: int|
            0 <= j < 5
                ==> (#[trigger] partition_cells(x)[j]).0.len() >= 12
                    && partition_cells(x)[j].0.skip(12)
                == seq![(x.parent * 256 + x.index) as u32],
{
    let row = partition_cells(x);
    let ix = seq![(x.parent * 256 + x.index) as u32];
    assert forall|j: int| 0 <= j < 5 implies (#[trigger] row[j]).0.len() >= 12 && row[j].0.skip(
        12,
    ) == ix by {
        if j == 0 {
            assert(row[0].0.skip(12) =~= ix);
        }         else if j == 1 {
            assert(row[1].0.skip(12) =~= ix);
        }         else if j == 2 {
            assert(row[2].0.skip(12) =~= ix);
        }         else if j == 3 {
            assert(row[3].0.skip(12) =~= ix);
        }         else {
            assert(row[4].0.skip(12) =~= ix);
        }
    }
}

/// `hrPartitionTable` answers for each partition, by its disk and its number there.
pub proof fn partitions_are_listed(list: Seq<PartitionView>, k: int)
    requires
        0 <= k < list.len(),
        forall|j: int|
            k < j < list.len() ==> (#[trigger] list[j].parent * 256 + list[j].index) as u32 != (
            list[k].parent * 256 + list[k].index) as u32,
    ensures
        ({
            let x = list[k];
            let t = partition_group(list);
            let at = seq![(x.parent * 256 + x.index) as u32];
            &&& table_answer(t, seq![1u32, 3, 6, 1, 2, 1, 25, 3, 7, 1, 1, 1] + at) == Some(
                ValueView::Integer(at[0] as i64),
            )
            &&& table_answer(t, seq![1u32, 3, 6, 1, 2, 1, 25, 3, 7, 1, 1, 2] + at) == Some(
                ValueView::OctetString(utf8(x.label)),
            )
            &&& table_answer(t, seq![1u32, 3, 6, 1, 2, 1, 25, 3, 7, 1, 1, 3] + at) == Some(
                ValueView::OctetString(x.id),
            )
            &&& table_answer(t, seq![1u32, 3, 6, 1, 2, 1, 25, 3, 7, 1, 1, 4] + at) == Some(
                ValueView::Integer(within(x.size as int)),
            )
            &&& table_answer(t, seq![1u32, 3, 6, 1, 2, 1, 25, 3, 7, 1, 1, 5] + at) == Some(
                ValueView::OctetString(utf8(x.fs_type)),
            )
        }),
{
    let rows = Seq::new(list.len(), |i: int| partition_cells(list[i]));
    let ids = Seq::new(list.len(), |i: int| seq![(list[i].parent * 256 + list[i].index) as u32]);
    lemma_partitions_are_listed_rows(list);
    assert forall|r: int, j: int|
        #![trigger rows[r][j]]
        k <= r < rows.len() && 0 <= j < rows[r].len() implies rows[r][j].0.len() >= 12
            && rows[r][j].0.skip(12) == ids[r] by {
        lemma_partitions_are_listed_shape(list[r], r);
    }
    assert forall|r: int| k < r < rows.len() implies #[trigger] ids[r] != ids[k] by {
        let p = seq![(list[r].parent * 256 + list[r].index) as u32];
        let q = seq![(list[k].parent * 256 + list[k].index) as u32];
        assert(p[0] != q[0]);
    }
    let row = rows[k];
    let at = ids[k];
    lemma_partitions_are_listed_shape(list[k], k);
    assert(row[0].0 =~= seq![1u32, 3, 6, 1, 2, 1, 25, 3, 7, 1, 1, 1] + at);
    lemma_row_cell(rows, 12, ids, k, 0);
    assert(row[1].0 =~= seq![1u32, 3, 6, 1, 2, 1, 25, 3, 7, 1, 1, 2] + at);
    lemma_row_cell(rows, 12, ids, k, 1);
    assert(row[2].0 =~= seq![1u32, 3, 6, 1, 2, 1, 25, 3, 7, 1, 1, 3] + at);
    lemma_row_cell(rows, 12, ids, k, 2);
    assert(row[3].0 =~= seq![1u32, 3, 6, 1, 2, 1, 25, 3, 7, 1, 1, 4] + at);
    lemma_row_cell(rows, 12, ids, k, 3);
    assert(row[4].0 =~= seq![1u32, 3, 6, 1, 2, 1, 25, 3, 7, 1, 1, 5] + at);
    lemma_row_cell(rows, 12, ids, k, 4);
}

proof fn lemma_disks_are_listed_rows(list: Seq<DiskStorageRow>)
    ensures
        all_rows(list) == flat(Seq::new(list.len(), |i: int| list[i].row())),
    decreases list.len(),
{
    let rows = Seq::new(list.len(), |i: int| list[i].row());
    if list.len() > 0 {
        let t = list.drop_last();
        lemma_disks_are_listed_rows(t);
        assert(rows.drop_last() =~= Seq::new(t.len(), |i: int| t[i].row()));
        assert(rows.last() == list.last().row());
        assert(all_rows(list) == all_rows(t) + rows.last());
    } else {
        assert(all_rows(list) =~= flat(rows));
    }
}

proof fn lemma_disks_are_listed_shape(x: DiskStorageRow, i: int)
    ensures
        x.row().len() == 5,
        forall|j: int|
            0 <= j < 5 ==> (#[trigger] x.row()[j]).0.len() >= 12 && x.row()[j].0.skip(12)
                == seq![x.index],
{
    let row = x.row();
    let ix = seq![x.index];
    assert forall|j: int| 0 <= j < 5 implies (#[trigger] row[j]).0.len() >= 12 && row[j].0.skip(
        12,
    ) == ix by {
        if j == 0 {
            assert(row[0].0.skip(12) =~= ix);
        }         else if j == 1 {
            assert(row[1].0.skip(12) =~= ix);
        }         else if j == 2 {
            assert(row[2].0.skip(12) =~= ix);
        }         else if j == 3 {
            assert(row[3].0.skip(12) =~= ix);
        }         else {
            assert(row[4].0.skip(12) =~= ix);
        }
    }
}

/// `hrDiskStorageTable` answers for each disk with its access, media, removability and capacity.
pub proof fn disks_are_listed(list: Seq<DiskStorageRow>, k: int)
    requires
        0 <= k < list.len(),
        forall|j: int| k < j < list.len() ==> #[trigger] list[j].index != list[k].index,
    ensures
        ({
            let x = list[k];
            let t = all_rows(list);
            let at = seq![x.index];
            &&& table_answer(t, seq![1u32, 3, 6, 1, 2, 1, 25, 3, 6, 1, 1, 1] + at) == Some(
                ValueView::Integer(x.index as i64),
            )
            &&& table_answer(t, seq![1u32, 3, 6, 1, 2, 1, 25, 3, 6, 1, 1, 2] + at) == Some(
                ValueView::Integer(x.access),
            )
            &&& table_answer(t, seq![1u32, 3, 6, 1, 2, 1, 25, 3, 6, 1, 1, 3] + at) == Some(
                ValueView::Integer(x.media),
            )
            &&& table_answer(t, seq![1u32, 3, 6, 1, 2, 1, 25, 3, 6, 1, 1, 4] + at) == Some(
                ValueView::Integer(x.removable),
            )
            &&& table_answer(t, seq![1u32, 3, 6, 1, 2, 1, 25, 3, 6, 1, 1, 5] + at) == Some(
                ValueView::Integer(x.capacity),
            )
        }),
{
    let rows = Seq::new(list.len(), |i: int| list[i].row());
    let ids = Seq::new(list.len(), |i: int| seq![list[i].index]);
    lemma_disks_are_listed_rows(list);
    assert forall|r: int, j: int|
        #![trigger rows[r][j]]
        k <= r < rows.len() && 0 <= j < rows[r].len() implies rows[r][j].0.len() >= 12
            && rows[r][j].0.skip(12) == ids[r] by {
        lemma_disks_are_listed_shape(list[r], r);
    }
    assert forall|r: int| k < r < rows.len() implies #[trigger] ids[r] != ids[k] by {
        let p = seq![list[r].index];
        let q = seq![list[k].index];
        assert(p[0] != q[0]);
    }
    let row = rows[k];
    let at = ids[k];
    lemma_disks_are_listed_shape(list[k], k);
    assert(row[0].0 =~= seq![1u32, 3, 6, 1, 2, 1, 25, 3, 6, 1, 1, 1] + at);
    lemma_row_cell(rows, 12, ids, k, 0);
    assert(row[1].0 =~= seq![1u32, 3, 6, 1, 2, 1, 25, 3, 6, 1, 1, 2] + at);
    lemma_row_cell(rows, 12, ids, k, 1);
    assert(row[2].0 =~= seq![1u32, 3, 6, 1, 2, 1, 25, 3, 6, 1, 1, 3] + at);
    lemma_row_cell(rows, 12, ids, k, 2);
    assert(row[3].0 =~= seq![1u32, 3, 6, 1, 2, 1, 25, 3, 6, 1, 1, 4] + at);
    lemma_row_cell(rows, 12, ids, k, 3);
    assert(row[4].0 =~= seq![1u32, 3, 6, 1, 2, 1, 25, 3, 6, 1, 1, 5] + at);
    lemma_row_cell(rows, 12, ids, k, 4);
}

/// `hrNetworkTable` answers for each interface, in order, with its index in `ifTable`.
pub proof fn networks_name_their_interfaces(fs: Seq<Interface>, k: int)
    requires
        0 <= k < fs.len() <= u32::MAX,
    ensures
        table_answer(
            network_group(fs),
            seq![1u32, 3, 6, 1, 2, 1, 25, 3, 4, 1, 1, 1, (k + 1) as u32],
        ) == Some(ValueView::Integer(fs[k].index as i64)),
{
    let s = network_group(fs);
    let oid = seq![1u32, 3, 6, 1, 2, 1, 25, 3, 4, 1, 1, 1, (k + 1) as u32];
    assert(s[k].0 =~= oid);
    assert forall|j: int| k < j < s.len() implies (#[trigger] s[j]).0 != s[k].0 by {
        assert(s[j].0[12] == (j + 1) as u32);
        assert(s[k].0[12] == (k + 1) as u32);
    }
    last_cell_answers(s, k);
}

/// The octets of a date and time are the year from the high octet to the low one, the month, the
/// day, the hour, the minute, the second, the tenth of a second, and the sign, hours and minutes of
/// the distance from UTC.
pub proof fn date_octets_spell_the_time(t: LocalTime)
    requires
        t.valid(),
    ensures
        ({
            let b = date_and_time_of(t);
            let minutes = b[9] * 60 + b[10];
            &&& b.len() == 11
            &&& 0 <= t.year < 0x1_0000 ==> b[0] * 256 + b[1] == t.year
            &&& b[2] == t.month && b[3] == t.day
            &&& b[4] == t.hour && b[5] == t.minute && b[6] == t.second
            &&& b[7] * 100_000_000 <= t.nanosecond < (b[7] + 1) * 100_000_000
            &&& b[8] == '+' as u8 <==> t.offset_secs > -60
            &&& b[8] == '-' as u8 <==> t.offset_secs <= -60
            &&& b[10] < 60
            &&& t.offset_secs >= 0 ==> minutes * 60 <= t.offset_secs < minutes * 60 + 60
            &&& t.offset_secs < 0 ==> minutes * 60 <= -t.offset_secs < minutes * 60 + 60
        }),
{
    let off = quotient(t.offset_secs as int, 60);
    assert(-1440 < off < 1440);
}

/// `hrSystem` answers with the uptime in hundredths of a second, the date, and the numbers of users
/// and processes.
#[verifier::rlimit(40)]
pub proof fn system_scalars_are_listed(s: Snapshot, now: LocalTime)
    ensures
        ({
            let t = system_cells(s, now);
            let top = vstd::math::min(s.uptime_secs * 100, 0xffff_ffff);
            &&& table_answer(t, seq![1u32, 3, 6, 1, 2, 1, 25, 1, 1, 0]) == Some(
                ValueView::TimeTicks(top as u32),
            )
            &&& table_answer(t, seq![1u32, 3, 6, 1, 2, 1, 25, 1, 2, 0]) == Some(
                ValueView::OctetString(date_and_time_of(now)),
            )
            &&& table_answer(t, seq![1u32, 3, 6, 1, 2, 1, 25, 1, 5, 0]) == Some(
                ValueView::Gauge32(within(s.num_users as int) as u32),
            )
            &&& table_answer(t, seq![1u32, 3, 6, 1, 2, 1, 25, 1, 6, 0]) == Some(
                ValueView::Gauge32(within(s.num_processes as int) as u32),
            )
            &&& table_answer(t, seq![1u32, 3, 6, 1, 2, 1, 25, 1, 7, 0]) == Some(
                ValueView::Integer(0),
            )
        }),
{
    let t = system_cells(s, now);
    let cols = seq![1u32, 2, 5, 6, 7];
    assert forall|j: int| 0 <= j < 5 implies (#[trigger] t[j]).0 == seq![
        1u32,
        3,
        6,
        1,
        2,
        1,
        25,
        1,
        cols[j],
        0,
    ] by {
        assert(t[j].0 =~= seq![1u32, 3, 6, 1, 2, 1, 25, 1, cols[j], 0]);
    }
    assert forall|j: int| 0 <= j < 5 implies (#[trigger] t[j]).0[8] == cols[j] by {}
    last_cell_answers(t, 0);
    last_cell_answers(t, 1);
    last_cell_answers(t, 2);
    last_cell_answers(t, 3);
    last_cell_answers(t, 4);
    assert(t[0].0 == seq![1u32, 3, 6, 1, 2, 1, 25, 1, 1, 0]);
    assert(t[1].0 == seq![1u32, 3, 6, 1, 2, 1, 25, 1, 2, 0]);
    assert(t[2].0 == seq![1u32, 3, 6, 1, 2, 1, 25, 1, 5, 0]);
    assert(t[3].0 == seq![1u32, 3, 6, 1, 2, 1, 25, 1, 6, 0]);
    assert(t[4].0 == seq![1u32, 3, 6, 1, 2, 1, 25, 1, 7, 0]);
}

/// Physical memory is storage area 1 and swap space area 3, in kilobytes, where there is any, and
/// the filesystems are the areas from 4 on, each with the bytes that are not available as used, in
/// its own unit. No two areas have one index.
#[verifier::rlimit(40)]
pub proof fn memory_and_disks_are_storage(s: Snapshot, i: int)
    requires
        s.disks@.len() <= u32::MAX - 4,
    ensures
        ({
            let a = storage_rows_of(s);
            let m: int = if s.mem_total > 0 {
                1
            } else {
                0
            };
            let w: int = if s.swap_total > 0 {
                1
            } else {
                0
            };
            &&& a.len() == m + w + s.disks@.len()
            &&& s.mem_total > 0 ==> a[0].index == 1 && a[0].type_oid == seq![
                1u32,
                3,
                6,
                1,
                2,
                1,
                25,
                2,
                1,
                2,
            ] && a[0].descr == "Physical memory"@ && a[0].alloc_units == 1024 && a[0].size
                == within(s.mem_total as int / 1024) && a[0].used == within(
                s.mem_used as int / 1024,
            )
            &&& s.swap_total > 0 ==> a[m].index == 3 && a[m].type_oid == seq![
                1u32,
                3,
                6,
                1,
                2,
                1,
                25,
                2,
                1,
                3,
            ] && a[m].descr == "Swap space"@ && a[m].alloc_units == 1024 && a[m].size == within(
                s.swap_total as int / 1024,
            ) && a[m].used == within(s.swap_used as int / 1024)
            &&& 0 <= i < s.disks@.len() ==> {
                let d = s.disks@[i];
                let r = a[m + w + i];
                let units = units_from(d.total as nat, 4096) as int;
                &&& r.index == 4 + i
                &&& r.type_oid == seq![1u32, 3, 6, 1, 2, 1, 25, 2, 1, 4]
                &&& r.descr == (if d.fs@.len() == 0 {
                    d.mount@
                } else {
                    d.mount@ + " ("@ + d.fs@ + ")"@
                })
                &&& r.alloc_units == units as i64
                &&& r.size == within(d.total as int / units)
                &&& r.used == within(vstd::math::max(d.total - d.available, 0) / units)
            }
            &&& forall|x: int, y: int|
                #![trigger a[x], a[y]]
                0 <= x < y < a.len() ==> a[x].index != a[y].index
        }),
{
    let a = storage_rows_of(s);
    let m: int = if s.mem_total > 0 {
        1
    } else {
        0
    };
    let w: int = if s.swap_total > 0 {
        1
    } else {
        0
    };
    let ds = disk_rows(s.disks@);
    let ma = memory_row(1, 2, "Physical memory"@, s.mem_total, s.mem_used);
    let sw = memory_row(3, 3, "Swap space"@, s.swap_total, s.swap_used);
    assert(ma.len() == m && sw.len() == w);
    if m == 1 {
        assert(a[0] == ma[0]);
    }
    if w == 1 {
        assert(a[m] == sw[0]);
    }
    assert forall|x: int| m + w <= x < a.len() implies (#[trigger] a[x]).index == 4 + (x - m
        - w) by {
        assert(a[x] == ds[x - m - w]);
    }
    if 0 <= i < s.disks@.len() {
        assert(a[m + w + i] == ds[i]);
    }
}

/// `hrMemorySize` is the physical memory in kilobytes, and the storage areas are answered for
/// beside it.
#[verifier::rlimit(40)]
pub proof fn memory_size_is_listed(s: Snapshot, k: int)
    requires
        s.disks@.len() <= u32::MAX - 4,
        0 <= k < storage_rows_of(s).len(),
    ensures
        ({
            let t = storage_group(s);
            let x = storage_rows_of(s)[k];
            let at = seq![x.index];
            &&& table_answer(t, seq![1u32, 3, 6, 1, 2, 1, 25, 2, 2, 0]) == Some(
                ValueView::Integer(within(s.mem_total as int / 1024)),
            )
            &&& table_answer(t, seq![1u32, 3, 6, 1, 2, 1, 25, 2, 3, 1, 2] + at) == Some(
                ValueView::Oid(x.type_oid),
            )
            &&& table_answer(t, seq![1u32, 3, 6, 1, 2, 1, 25, 2, 3, 1, 3] + at) == Some(
                ValueView::OctetString(utf8(x.descr)),
            )
            &&& table_answer(t, seq![1u32, 3, 6, 1, 2, 1, 25, 2, 3, 1, 4] + at) == Some(
                ValueView::Integer(x.alloc_units),
            )
            &&& table_answer(t, seq![1u32, 3, 6, 1, 2, 1, 25, 2, 3, 1, 5] + at) == Some(
                ValueView::Integer(x.size),
            )
            &&& table_answer(t, seq![1u32, 3, 6, 1, 2, 1, 25, 2, 3, 1, 6] + at) == Some(
                ValueView::Integer(x.used),
            )
        }),
{
    let areas = storage_rows_of(s);
    memory_and_disks_are_storage(s, 0);
    storage_is_listed(areas, k);
    lemma_storage_is_listed_rows(areas);
    let rows = Seq::new(areas.len(), |i: int| storage_cells(areas[i]));
    let b = all_storage_cells(areas);
    let memory = seq![1u32, 3, 6, 1, 2, 1, 25, 2, 2, 0];
    assert forall|r: int, j: int|
        #![trigger rows[r][j]]
        0 <= r < rows.len() && 0 <= j < rows[r].len() implies rows[r][j].0 != memory by {
        lemma_storage_is_listed_shape(areas[r], r);
        assert(rows[r][j].0.len() >= 11);
    }
    lemma_rows_lack(rows, memory);
    let a = storage_group(s).take(1);
    assert(storage_group(s) =~= a + b);
    assert(a[0].0 =~= memory);
    last_cell_answers(a, 0);
    let at = seq![areas[k].index];
    later_cells_answer_first(a, b, memory);
    later_cells_answer_first(a, b, seq![1u32, 3, 6, 1, 2, 1, 25, 2, 3, 1, 2] + at);
    later_cells_answer_first(a, b, seq![1u32, 3, 6, 1, 2, 1, 25, 2, 3, 1, 3] + at);
    later_cells_answer_first(a, b, seq![1u32, 3, 6, 1, 2, 1, 25, 2, 3, 1, 4] + at);
    later_cells_answer_first(a, b, seq![1u32, 3, 6, 1, 2, 1, 25, 2, 3, 1, 5] + at);
    later_cells_answer_first(a, b, seq![1u32, 3, 6, 1, 2, 1, 25, 2, 3, 1, 6] + at);
}

/// The kind of a filesystem goes by its name.
pub proof fn filesystem_names_have_kinds()
    ensures
        FsType::named("ext2"@).suffix() == 10,
        FsType::named("ext3"@).suffix() == 10,
        FsType::named("ext4"@).suffix() == 10,
        FsType::named("xfs"@).suffix() == 14,
        FsType::named("ntfs"@).suffix() == 7,
        FsType::named("vfat"@).suffix() == 6,
        FsType::named(seq![]).suffix() == 2,
        forall|fs: Seq<char>|
            fs.len() > 4 ==> (#[trigger] FsType::named(fs)).suffix() == 1,
{
    reveal_strlit("ext2");
    reveal_strlit("ext3");
    reveal_strlit("ext4");
    reveal_strlit("xfs");
    reveal_strlit("ntfs");
    reveal_strlit("vfat");
    assert("ntfs"@[0] == 'n' && "vfat"@[0] == 'v' && "ext2"@[0] == 'e');
}

proof fn lemma_cpu_rows(cs: Seq<CpuSample>)
    ensures
        all_cpu_cells(cs) == flat(Seq::new(cs.len(), |i: int| cpu_cells(cs[i], (i + 1) as u32))),
    decreases cs.len(),
{
    let rows = Seq::new(cs.len(), |i: int| cpu_cells(cs[i], (i + 1) as u32));
    if cs.len() > 0 {
        let t = cs.drop_last();
        lemma_cpu_rows(t);
        assert(rows.drop_last() =~= Seq::new(t.len(), |i: int| cpu_cells(t[i], (i + 1) as u32)));
        assert(rows.last() == cpu_cells(cs.last(), cs.len() as u32));
    } else {
        assert(all_cpu_cells(cs) =~= flat(rows));
    }
}

proof fn lemma_disk_rows(ds: Seq<DiskSample>, base: nat)
    ensures
        all_disk_cells(ds, base) == flat(
            Seq::new(ds.len(), |i: int| disk_cells(ds[i], i, (base + i + 1) as u32)),
        ),
    decreases ds.len(),
{
    let rows = Seq::new(ds.len(), |i: int| disk_cells(ds[i], i, (base + i + 1) as u32));
    if ds.len() > 0 {
        let t = ds.drop_last();
        lemma_disk_rows(t, base);
        assert(rows.drop_last() =~= Seq::new(
            t.len(),
            |i: int| disk_cells(t[i], i, (base + i + 1) as u32),
        ));
        assert(rows.last() == disk_cells(ds.last(), ds.len() - 1, (base + ds.len()) as u32));
    } else {
        assert(all_disk_cells(ds, base) =~= flat(rows));
    }
}

proof fn lemma_cpu_shape(c: CpuSample, index: u32)
    ensures
        ({
            let row = cpu_cells(c, index);
            &&& row.len() == 6
            &&& forall|j: int|
                0 <= j < 6 ==> (#[trigger] row[j]).0.len() == 12 && row[j].0[11] == index
                    && row[j].0[8] == (if j < 4 {
                    2u32
                } else {
                    3u32
                }) && row[j].0[10] == (if j < 3 {
                    j + 1
                } else if j == 3 {
                    5
                } else {
                    j - 3
                })
        }),
{
}

proof fn lemma_disk_shape(d: DiskSample, i: int, index: u32)
    ensures
        ({
            let row = disk_cells(d, i, index);
            &&& row.len() == 13
            &&& forall|j: int|
                0 <= j < 13 ==> (#[trigger] row[j]).0.len() == 12 && row[j].0[11] == (if j < 4 {
                    index
                } else {
                    (i + 1) as u32
                }) && row[j].0[8] == (if j < 4 {
                    2u32
                } else {
                    8u32
                }) && row[j].0[10] == (if j < 3 {
                    j + 1
                } else if j == 3 {
                    5
                } else {
                    j - 3
                })
        }),
{
}

/// `hrDeviceTable` has the processors first and the filesystems behind them, under one numbering.
/// Each processor is answered for there and in `hrProcessorTable` with its own load.
#[verifier::rlimit(40)]
pub proof fn processors_are_devices(s: Snapshot, k: int)
    requires
        s.cpus@.len() + s.disks@.len() <= u32::MAX,
        0 <= k < s.cpus@.len(),
    ensures
        ({
            let c = s.cpus@[k];
            let t = device_group(s);
            let at = seq![(k + 1) as u32];
            &&& table_answer(t, seq![1u32, 3, 6, 1, 2, 1, 25, 3, 2, 1, 1] + at) == Some(
                ValueView::Integer((k + 1) as i64),
            )
            &&& table_answer(t, seq![1u32, 3, 6, 1, 2, 1, 25, 3, 2, 1, 2] + at) == Some(
                ValueView::Oid(seq![1u32, 3, 6, 1, 2, 1, 25, 3, 1, 3]),
            )
            &&& table_answer(t, seq![1u32, 3, 6, 1, 2, 1, 25, 3, 2, 1, 3] + at) == Some(
                ValueView::OctetString(
                    utf8(
                        if c.freq_mhz > 0 {
                            c.name@ + " @ "@ + signed_decimal(c.freq_mhz as int) + " MHz"@
                        } else {
                            c.name@
                        },
                    ),
                ),
            )
            &&& table_answer(t, seq![1u32, 3, 6, 1, 2, 1, 25, 3, 2, 1, 5] + at) == Some(
                ValueView::Integer(2),
            )
            &&& table_answer(t, seq![1u32, 3, 6, 1, 2, 1, 25, 3, 3, 1, 1] + at) == Some(
                ValueView::Oid(seq![0u32, 0]),
            )
            &&& table_answer(t, seq![1u32, 3, 6, 1, 2, 1, 25, 3, 3, 1, 2] + at) == Some(
                ValueView::Integer(within(c.usage_pct as int)),
            )
        }),
{
    let cs = s.cpus@;
    let ds = s.disks@;
    let rows = Seq::new(cs.len(), |i: int| cpu_cells(cs[i], (i + 1) as u32));
    let more = Seq::new(ds.len(), |i: int| disk_cells(ds[i], i, (cs.len() + i + 1) as u32));
    lemma_cpu_rows(cs);
    lemma_disk_rows(ds, cs.len());
    let at = seq![(k + 1) as u32];
    assert(rows[k][0].0 =~= seq![1u32, 3, 6, 1, 2, 1, 25, 3, 2, 1, 1] + at);
    assert(rows[k][1].0 =~= seq![1u32, 3, 6, 1, 2, 1, 25, 3, 2, 1, 2] + at);
    assert(rows[k][2].0 =~= seq![1u32, 3, 6, 1, 2, 1, 25, 3, 2, 1, 3] + at);
    assert(rows[k][3].0 =~= seq![1u32, 3, 6, 1, 2, 1, 25, 3, 2, 1, 5] + at);
    assert(rows[k][4].0 =~= seq![1u32, 3, 6, 1, 2, 1, 25, 3, 3, 1, 1] + at);
    assert(rows[k][5].0 =~= seq![1u32, 3, 6, 1, 2, 1, 25, 3, 3, 1, 2] + at);
    lemma_cpu_shape(cs[k], (k + 1) as u32);
    assert forall|c: int| 0 <= c < 6 implies table_answer(device_group(s), #[trigger] rows[k][c].0)
        == Some(rows[k][c].1) by {
        let oid = rows[k][c].0;
        assert forall|r: int, j: int|
            #![trigger rows[r][j]]
            k < r < rows.len() && 0 <= j < rows[r].len() implies rows[r][j].0 != oid by {
            lemma_cpu_shape(cs[r], (r + 1) as u32);
            assert(rows[r][j].0[11] == (r + 1) as u32);
        }
        lemma_cell_answers(rows, k, c);
        assert forall|r: int, j: int|
            #![trigger more[r][j]]
            0 <= r < more.len() && 0 <= j < more[r].len() implies more[r][j].0 != oid by {
            lemma_disk_shape(ds[r], r, (cs.len() + r + 1) as u32);
            assert(more[r][j].0.len() == 12);
        }
        lemma_rows_lack(more, oid);
        later_cells_answer_first(flat(rows), flat(more), oid);
    }
}

/// Each filesystem is a device behind the processors, and is answered for in `hrFSTable` with its
/// mount point, its kind, and its row in `hrStorageTable`.
#[verifier::rlimit(40)]
pub proof fn filesystems_are_devices(s: Snapshot, k: int)
    requires
        s.cpus@.len() + s.disks@.len() <= u32::MAX - 4,
        0 <= k < s.disks@.len(),
    ensures
        ({
            let d = s.disks@[k];
            let t = device_group(s);
            let n = s.cpus@.len() + k + 1;
            let dev = seq![n as u32];
            let at = seq![(k + 1) as u32];
            &&& table_answer(t, seq![1u32, 3, 6, 1, 2, 1, 25, 3, 2, 1, 1] + dev) == Some(
                ValueView::Integer(n as i64),
            )
            &&& table_answer(t, seq![1u32, 3, 6, 1, 2, 1, 25, 3, 2, 1, 2] + dev) == Some(
                ValueView::Oid(seq![1u32, 3, 6, 1, 2, 1, 25, 3, 1, 5]),
            )
            &&& table_answer(t, seq![1u32, 3, 6, 1, 2, 1, 25, 3, 2, 1, 3] + dev) == Some(
                ValueView::OctetString(utf8(d.mount@)),
            )
            &&& table_answer(t, seq![1u32, 3, 6, 1, 2, 1, 25, 3, 2, 1, 5] + dev) == Some(
                ValueView::Integer(2),
            )
            &&& table_answer(t, seq![1u32, 3, 6, 1, 2, 1, 25, 3, 8, 1, 1] + at) == Some(
                ValueView::Integer((k + 1) as i64),
            )
            &&& table_answer(t, seq![1u32, 3, 6, 1, 2, 1, 25, 3, 8, 1, 2] + at) == Some(
                ValueView::OctetString(utf8(d.mount@)),
            )
            &&& table_answer(t, seq![1u32, 3, 6, 1, 2, 1, 25, 3, 8, 1, 3] + at) == Some(
                ValueView::OctetString(seq![]),
            )
            &&& table_answer(t, seq![1u32, 3, 6, 1, 2, 1, 25, 3, 8, 1, 4] + at) == Some(
                ValueView::Oid(
                    seq![1u32, 3, 6, 1, 2, 1, 25, 3, 9, FsType::named(d.fs@).suffix()],
                ),
            )
            &&& table_answer(t, seq![1u32, 3, 6, 1, 2, 1, 25, 3, 8, 1, 5] + at) == Some(
                ValueView::Integer(1),
            )
            &&& table_answer(t, seq![1u32, 3, 6, 1, 2, 1, 25, 3, 8, 1, 6] + at) == Some(
                ValueView::Integer(2),
            )
            &&& table_answer(t, seq![1u32, 3, 6, 1, 2, 1, 25, 3, 8, 1, 7] + at) == Some(
                ValueView::Integer((4 + k) as i64),
            )
            &&& table_answer(t, seq![1u32, 3, 6, 1, 2, 1, 25, 3, 8, 1, 8] + at) == Some(
                ValueView::OctetString(seq![2u8]),
            )
            &&& table_answer(t, seq![1u32, 3, 6, 1, 2, 1, 25, 3, 8, 1, 9] + at) == Some(
                ValueView::OctetString(seq![2u8]),
            )
        }),
{
    let cs = s.cpus@;
    let ds = s.disks@;
    let rows = Seq::new(cs.len(), |i: int| cpu_cells(cs[i], (i + 1) as u32));
    let more = Seq::new(ds.len(), |i: int| disk_cells(ds[i], i, (cs.len() + i + 1) as u32));
    lemma_cpu_rows(cs);
    lemma_disk_rows(ds, cs.len());
    let at = seq![(k + 1) as u32];
    let n = cs.len() + k + 1;
    let dev = seq![n as u32];
    lemma_disk_shape(ds[k], k, n as u32);
    assert forall|c: int| 0 <= c < 13 implies table_answer(device_group(s), #[trigger] more[k][c].0)
        == Some(more[k][c].1) by {
        let oid = more[k][c].0;
        assert forall|r: int, j: int|
            #![trigger more[r][j]]
            k < r < more.len() && 0 <= j < more[r].len() implies more[r][j].0 != oid by {
            lemma_disk_shape(ds[r], r, (cs.len() + r + 1) as u32);
            assert(more[r][j].0.len() == 12);
        }
        lemma_cell_answers(more, k, c);
        later_cells_answer_first(flat(rows), flat(more), oid);
    }
    assert(more[k][0].0 =~= seq![1u32, 3, 6, 1, 2, 1, 25, 3, 2, 1, 1] + dev);
    assert(more[k][1].0 =~= seq![1u32, 3, 6, 1, 2, 1, 25, 3, 2, 1, 2] + dev);
    assert(more[k][2].0 =~= seq![1u32, 3, 6, 1, 2, 1, 25, 3, 2, 1, 3] + dev);
    assert(more[k][3].0 =~= seq![1u32, 3, 6, 1, 2, 1, 25, 3, 2, 1, 5] + dev);
    assert(more[k][4].0 =~= seq![1u32, 3, 6, 1, 2, 1, 25, 3, 8, 1, 1] + at);
    assert(more[k][5].0 =~= seq![1u32, 3, 6, 1, 2, 1, 25, 3, 8, 1, 2] + at);
    assert(more[k][6].0 =~= seq![1u32, 3, 6, 1, 2, 1, 25, 3, 8, 1, 3] + at);
    assert(more[k][7].0 =~= seq![1u32, 3, 6, 1, 2, 1, 25, 3, 8, 1, 4] + at);
    assert(more[k][8].0 =~= seq![1u32, 3, 6, 1, 2, 1, 25, 3, 8, 1, 5] + at);
    assert(more[k][9].0 =~= seq![1u32, 3, 6, 1, 2, 1, 25, 3, 8, 1, 6] + at);
    assert(more[k][10].0 =~= seq![1u32, 3, 6, 1, 2, 1, 25, 3, 8, 1, 7] + at);
    assert(more[k][11].0 =~= seq![1u32, 3, 6, 1, 2, 1, 25, 3, 8, 1, 8] + at);
    assert(more[k][12].0 =~= seq![1u32, 3, 6, 1, 2, 1, 25, 3, 8, 1, 9] + at);
}

/// Whether a file's text is a number other than zero.
pub open spec fn says_yes(text: Option<String>) -> bool {
    text matches Some(t) && (signed_value(trim(t@), i64::MIN as int, i64::MAX as int) matches Some(
        n,
    ) && n != 0)
}

/// A disk's row says whether it is read-only and removable, and its capacity in bytes, at 512 to a
/// sector.
pub proof fn disk_rows_say_what_is_known(d: BlockDevice, i: int, sectors: nat)
    requires
        0 <= i < u32::MAX,
    ensures
        ({
            let r = disk_storage_row(d, i);
            &&& r.index == i + 1
            &&& r.access == (if says_yes(d.read_only) {
                2i64
            } else {
                1
            })
            &&& r.removable == (if says_yes(d.removable) {
                1i64
            } else {
                2
            })
            &&& (d.sectors matches Some(t) && unsigned_value(trim(t@), 10, u64::MAX as nat) == Some(
                sectors,
            )) ==> r.capacity == within(sectors as int * 512)
            &&& d.sectors is None ==> r.capacity == 0
        }),
{
}

/// The media of a disk goes by how its name begins.
#[verifier::rlimit(40)]
pub proof fn names_tell_the_media(rest: Seq<char>)
    ensures
        media_of("sd"@ + rest) == 6,
        media_of("hd"@ + rest) == 6,
        media_of("vd"@ + rest) == 6,
        media_of("nvme"@ + rest) == 6,
        media_of("sr"@ + rest) == 11,
        media_of("scd"@ + rest) == 11,
        media_of("cd"@ + rest) == 11,
        media_of("fd"@ + rest) == 3,
        media_of("md"@ + rest) == 1,
        media_of("dm-"@ + rest) == 1,
{
    reveal_strlit("sd");
    reveal_strlit("hd");
    reveal_strlit("vd");
    reveal_strlit("nvme");
    reveal_strlit("sr");
    reveal_strlit("scd");
    reveal_strlit("cd");
    reveal_strlit("fd");
    reveal_strlit("md");
    reveal_strlit("dm-");
    assert(("sd"@ + rest).take(2) =~= "sd"@);
    assert(("hd"@ + rest).take(2) =~= "hd"@);
    assert(("vd"@ + rest).take(2) =~= "vd"@);
    assert(("nvme"@ + rest).take(4) =~= "nvme"@);
    assert(("sr"@ + rest).take(2) =~= "sr"@);
    assert(("scd"@ + rest).take(3) =~= "scd"@);
    assert(("cd"@ + rest).take(2) =~= "cd"@);
    assert(("fd"@ + rest).take(2) =~= "fd"@);
    let a = "sr"@ + rest;
    let b = "scd"@ + rest;
    let c = "cd"@ + rest;
    let d = "fd"@ + rest;
    let e = "md"@ + rest;
    let f = "dm-"@ + rest;
    assert(a[0] == 's' && a[1] == 'r' && b[0] == 's' && b[1] == 'c' && c[0] == 'c' && d[0] == 'f'
        && e[0] == 'm' && f[0] == 'd');
    lemma_starts(a);
    lemma_starts(b);
    lemma_starts(c);
    lemma_starts(d);
    lemma_starts(e);
    lemma_starts(f);
}

proof fn lemma_starts(s: Seq<char>)
    ensures
        starts_with(s, "sd"@) ==> s[0] == 's' && s[1] == 'd',
        starts_with(s, "hd"@) ==> s[0] == 'h',
        starts_with(s, "vd"@) ==> s[0] == 'v',
        starts_with(s, "nvme"@) ==> s[0] == 'n',
        starts_with(s, "sr"@) ==> s[0] == 's' && s[1] == 'r',
        starts_with(s, "scd"@) ==> s[0] == 's' && s[1] == 'c',
        starts_with(s, "cd"@) ==> s[0] == 'c',
        starts_with(s, "fd"@) ==> s[0] == 'f',
{
    reveal_strlit("sd");
    reveal_strlit("hd");
    reveal_strlit("vd");
    reveal_strlit("nvme");
    reveal_strlit("sr");
    reveal_strlit("scd");
    reveal_strlit("cd");
    reveal_strlit("fd");
    assert(s.len() >= 2 ==> s.take(2)[0] == s[0] && s.take(2)[1] == s[1]);
    assert(s.len() >= 3 ==> s.take(3)[0] == s[0] && s.take(3)[1] == s[1]);
    assert(s.len() >= 4 ==> s.take(4)[0] == s[0]);
}

/// Loop and RAM devices are no disks; every other block device is one, and they keep their order.
pub proof fn disks_are_not_loops(ds: Seq<BlockDevice>, d: BlockDevice, rest: Seq<char>)
    ensures
        d.name@ == "loop"@ + rest ==> disks_of(ds.push(d)) == disks_of(ds),
        d.name@ == "ram"@ + rest ==> disks_of(ds.push(d)) == disks_of(ds),
        d.name@.len() >= 1 && d.name@[0] != 'l' && d.name@[0] != 'r' ==> disks_of(ds.push(d))
            == disks_of(ds).push(d),
        disks_of(Seq::empty()) == Seq::<BlockDevice>::empty(),
{
    reveal_strlit("loop");
    reveal_strlit("ram");
    assert(ds.push(d).drop_last() =~= ds);
    assert(("loop"@ + rest).take(4) =~= "loop"@);
    assert(("ram"@ + rest).take(3) =~= "ram"@);
    assert(d.name@.len() >= 4 ==> d.name@.take(4)[0] == d.name@[0]);
    assert(d.name@.len() >= 3 ==> d.name@.take(3)[0] == d.name@[0]);
}

} // verus!
