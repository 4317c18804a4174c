//! What the UCD tables answer, in terms of what was sampled and configured.

use vstd::prelude::*;

use crate::cells::CellView;
use crate::config::lowered;
use crate::mibgroup::collector::DiskSample;
use crate::mibgroup::collector::ProcSample;
use crate::mibgroup::collector::Snapshot;
use crate::mibgroup::ucd::base_group;
use crate::mibgroup::ucd::dsk_group;
use crate::mibgroup::ucd::dsk_row;
use crate::mibgroup::ucd::exec_line;
use crate::mibgroup::ucd::exec_views;
use crate::mibgroup::ucd::exit_code;
use crate::mibgroup::ucd::ext_group;
use crate::mibgroup::ucd::ext_row;
use crate::mibgroup::ucd::file_group;
use crate::mibgroup::ucd::file_row;
use crate::mibgroup::ucd::first_line;
use crate::mibgroup::ucd::joined;
use crate::mibgroup::ucd::la_group;
use crate::mibgroup::ucd::log_count;
use crate::mibgroup::ucd::log_group;
use crate::mibgroup::ucd::log_row;
use crate::mibgroup::ucd::log_tail;
use crate::mibgroup::ucd::memory_group;
use crate::mibgroup::ucd::named_count;
use crate::mibgroup::ucd::occurrences;
use crate::mibgroup::ucd::pr_group;
use crate::mibgroup::ucd::pr_row;
use crate::mibgroup::ucd::ss_cpu_group;
use crate::mibgroup::ucd::ss_raw_group;
use crate::mibgroup::ucd::stat_line;
use crate::mibgroup::ucd::stat_of;
use crate::mibgroup::ucd::ucd_group;
use crate::mibgroup::ucd::version_group;
use crate::mibgroup::ucd::ExecView;
use crate::mibgroup::ucd::FileCheckEntry;
use crate::mibgroup::ucd::FileStat;
use crate::mibgroup::ucd::LogMatchEntry;
use crate::mibgroup::ucd::ProcCheckEntry;
use crate::mibgroup::ucd::StatView;
use crate::mibgroup::ucd::UcdMibConfig;
use crate::mibgroup::ucd::UcdReadings;
use crate::table_laws::all_under;
use crate::table_laws::flat;
use crate::table_laws::last_cell_answers;
use crate::table_laws::later_cells_answer_first;
use crate::table_laws::lemma_row_cell;
use crate::table_laws::other_arcs_are_not_answered;
use crate::table_laws::table_answer;
use crate::text::decimal;
use crate::text::decimal_reads_back;
use crate::text::is_space;
use crate::text::lines;
use crate::text::signed_decimal;
use crate::text::starts_with;
use crate::text::words;
use crate::text_laws::is_blank;
use crate::text_laws::is_plain_word;
use crate::text_laws::lacks;
use crate::text_laws::last_line_needs_no_line_feed;
use crate::text_laws::lines_end_with_a_line_feed;
use crate::text_laws::trimming_takes_the_white_space;
use crate::text_laws::white_space_parts_words;
use crate::value::utf8;
use crate::value::ValueView;

verus! {

/// Bytes in kilobytes, at most the greatest `Integer32`.
pub open spec fn kilobytes(bytes: int) -> i64 {
    vstd::math::min(bytes / 1024, 0x7fff_ffff) as i64
}

/// The memory scalars are the totals and what is left of swap space and memory, in kilobytes.
pub proof fn memory_is_listed(s: Snapshot)
    ensures
        ({
            let t = memory_group(s);
            &&& table_answer(t, seq![1u32, 3, 6, 1, 4, 1, 2021, 4, 3, 0]) == Some(
                ValueView::Integer(kilobytes(s.swap_total as int)),
            )
            &&& table_answer(t, seq![1u32, 3, 6, 1, 4, 1, 2021, 4, 4, 0]) == Some(
                ValueView::Integer(kilobytes(s.swap_free as int)),
            )
            &&& table_answer(t, seq![1u32, 3, 6, 1, 4, 1, 2021, 4, 5, 0]) == Some(
                ValueView::Integer(kilobytes(s.mem_total as int)),
            )
            &&& table_answer(t, seq![1u32, 3, 6, 1, 4, 1, 2021, 4, 6, 0]) == Some(
                ValueView::Integer(kilobytes(s.mem_available as int)),
            )
            &&& table_answer(t, seq![1u32, 3, 6, 1, 4, 1, 2021, 4, 11, 0]) == Some(
                ValueView::Integer(kilobytes(s.mem_free + s.swap_free)),
            )
        }),
{
    let t = memory_group(s);
    let cols = seq![3u32, 4, 5, 6, 11];
    assert forall|j: int| 0 <= j < 5 implies (#[trigger] t[j]).0[8] == cols[j] by {}
    assert(t[0].0 =~= seq![1u32, 3, 6, 1, 4, 1, 2021, 4, 3, 0]);
    last_cell_answers(t, 0);
    assert(t[1].0 =~= seq![1u32, 3, 6, 1, 4, 1, 2021, 4, 4, 0]);
    last_cell_answers(t, 1);
    assert(t[2].0 =~= seq![1u32, 3, 6, 1, 4, 1, 2021, 4, 5, 0]);
    last_cell_answers(t, 2);
    assert(t[3].0 =~= seq![1u32, 3, 6, 1, 4, 1, 2021, 4, 6, 0]);
    last_cell_answers(t, 3);
    assert(t[4].0 =~= seq![1u32, 3, 6, 1, 4, 1, 2021, 4, 11, 0]);
    last_cell_answers(t, 4);
}

/// The processor scalars are the busy share, from 0 to 100 percent, and what is left to 100.
pub proof fn processor_shares_are_listed(s: Snapshot)
    ensures
        ({
            let t = ss_cpu_group(s);
            let busy = vstd::math::max(0, vstd::math::min(s.cpu_global_pct as int, 100));
            &&& table_answer(t, seq![1u32, 3, 6, 1, 4, 1, 2021, 11, 9, 0]) == Some(
                ValueView::Integer(busy as i64),
            )
            &&& table_answer(t, seq![1u32, 3, 6, 1, 4, 1, 2021, 11, 10, 0]) == Some(
                ValueView::Integer(0),
            )
            &&& table_answer(t, seq![1u32, 3, 6, 1, 4, 1, 2021, 11, 11, 0]) == Some(
                ValueView::Integer((100 - busy) as i64),
            )
        }),
{
    let t = ss_cpu_group(s);
    let cols = seq![9u32, 10, 11];
    assert forall|j: int| 0 <= j < 3 implies (#[trigger] t[j]).0[8] == cols[j] by {}
    assert(t[0].0 =~= seq![1u32, 3, 6, 1, 4, 1, 2021, 11, 9, 0]);
    last_cell_answers(t, 0);
    assert(t[1].0 =~= seq![1u32, 3, 6, 1, 4, 1, 2021, 11, 10, 0]);
    last_cell_answers(t, 1);
    assert(t[2].0 =~= seq![1u32, 3, 6, 1, 4, 1, 2021, 11, 11, 0]);
    last_cell_answers(t, 2);
}

/// The raw counters are, each in its own scalar, the processor times, pages, interrupts, context
/// switches and swaps that the kernel has counted, with their low 32 bits.
#[verifier::rlimit(40)]
pub proof fn raw_counters_are_listed(st: StatView)
    ensures
        ({
            let t = ss_raw_group(st);
            &&& table_answer(t, seq![1u32, 3, 6, 1, 4, 1, 2021, 11, 50, 0]) == Some(
                ValueView::Counter32(((st.cpu_jiffies[0]) as int % 0x1_0000_0000) as u32),
            )
            &&& table_answer(t, seq![1u32, 3, 6, 1, 4, 1, 2021, 11, 51, 0]) == Some(
                ValueView::Counter32(((st.cpu_jiffies[1]) as int % 0x1_0000_0000) as u32),
            )
            &&& table_answer(t, seq![1u32, 3, 6, 1, 4, 1, 2021, 11, 52, 0]) == Some(
                ValueView::Counter32(((st.cpu_jiffies[2]) as int % 0x1_0000_0000) as u32),
            )
            &&& table_answer(t, seq![1u32, 3, 6, 1, 4, 1, 2021, 11, 53, 0]) == Some(
                ValueView::Counter32(((st.cpu_jiffies[3]) as int % 0x1_0000_0000) as u32),
            )
            &&& table_answer(t, seq![1u32, 3, 6, 1, 4, 1, 2021, 11, 54, 0]) == Some(
                ValueView::Counter32(((st.cpu_jiffies[4]) as int % 0x1_0000_0000) as u32),
            )
            &&& table_answer(t, seq![1u32, 3, 6, 1, 4, 1, 2021, 11, 55, 0]) == Some(
                ValueView::Counter32(
                    ((st.cpu_jiffies[5] + st.cpu_jiffies[6]) as int % 0x1_0000_0000) as u32,
                ),
            )
            &&& table_answer(t, seq![1u32, 3, 6, 1, 4, 1, 2021, 11, 56, 0]) == Some(
                ValueView::Counter32(((st.cpu_jiffies[5]) as int % 0x1_0000_0000) as u32),
            )
            &&& table_answer(t, seq![1u32, 3, 6, 1, 4, 1, 2021, 11, 57, 0]) == Some(
                ValueView::Counter32(((st.page[0]) as int % 0x1_0000_0000) as u32),
            )
            &&& table_answer(t, seq![1u32, 3, 6, 1, 4, 1, 2021, 11, 58, 0]) == Some(
                ValueView::Counter32(((st.page[1]) as int % 0x1_0000_0000) as u32),
            )
            &&& table_answer(t, seq![1u32, 3, 6, 1, 4, 1, 2021, 11, 59, 0]) == Some(
                ValueView::Counter32(((st.intr_total) as int % 0x1_0000_0000) as u32),
            )
            &&& table_answer(t, seq![1u32, 3, 6, 1, 4, 1, 2021, 11, 60, 0]) == Some(
                ValueView::Counter32(((st.intr_total) as int % 0x1_0000_0000) as u32),
            )
            &&& table_answer(t, seq![1u32, 3, 6, 1, 4, 1, 2021, 11, 61, 0]) == Some(
                ValueView::Counter32(((st.ctxt_total) as int % 0x1_0000_0000) as u32),
            )
            &&& table_answer(t, seq![1u32, 3, 6, 1, 4, 1, 2021, 11, 62, 0]) == Some(
                ValueView::Counter32(((st.swap[0]) as int % 0x1_0000_0000) as u32),
            )
            &&& table_answer(t, seq![1u32, 3, 6, 1, 4, 1, 2021, 11, 63, 0]) == Some(
                ValueView::Counter32(((st.swap[1]) as int % 0x1_0000_0000) as u32),
            )
        }),
{
    let t = ss_raw_group(st);
    let cols = seq![50u32, 51, 52, 53, 54, 55, 56, 57, 58, 59, 60, 61, 62, 63];
    assert forall|j: int| 0 <= j < 14 implies (#[trigger] t[j]).0[8] == cols[j] by {}
    assert(t[0].0 =~= seq![1u32, 3, 6, 1, 4, 1, 2021, 11, 50, 0]);
    last_cell_answers(t, 0);
    assert(t[1].0 =~= seq![1u32, 3, 6, 1, 4, 1, 2021, 11, 51, 0]);
    last_cell_answers(t, 1);
    assert(t[2].0 =~= seq![1u32, 3, 6, 1, 4, 1, 2021, 11, 52, 0]);
    last_cell_answers(t, 2);
    assert(t[3].0 =~= seq![1u32, 3, 6, 1, 4, 1, 2021, 11, 53, 0]);
    last_cell_answers(t, 3);
    assert(t[4].0 =~= seq![1u32, 3, 6, 1, 4, 1, 2021, 11, 54, 0]);
    last_cell_answers(t, 4);
    assert(t[5].0 =~= seq![1u32, 3, 6, 1, 4, 1, 2021, 11, 55, 0]);
    last_cell_answers(t, 5);
    assert(t[6].0 =~= seq![1u32, 3, 6, 1, 4, 1, 2021, 11, 56, 0]);
    last_cell_answers(t, 6);
    assert(t[7].0 =~= seq![1u32, 3, 6, 1, 4, 1, 2021, 11, 57, 0]);
    last_cell_answers(t, 7);
    assert(t[8].0 =~= seq![1u32, 3, 6, 1, 4, 1, 2021, 11, 58, 0]);
    last_cell_answers(t, 8);
    assert(t[9].0 =~= seq![1u32, 3, 6, 1, 4, 1, 2021, 11, 59, 0]);
    last_cell_answers(t, 9);
    assert(t[10].0 =~= seq![1u32, 3, 6, 1, 4, 1, 2021, 11, 60, 0]);
    last_cell_answers(t, 10);
    assert(t[11].0 =~= seq![1u32, 3, 6, 1, 4, 1, 2021, 11, 61, 0]);
    last_cell_answers(t, 11);
    assert(t[12].0 =~= seq![1u32, 3, 6, 1, 4, 1, 2021, 11, 62, 0]);
    last_cell_answers(t, 12);
    assert(t[13].0 =~= seq![1u32, 3, 6, 1, 4, 1, 2021, 11, 63, 0]);
    last_cell_answers(t, 13);
}

/// The version scalars say what runs.
pub proof fn version_is_listed()
    ensures
        ({
            let t = version_group();
            &&& table_answer(t, seq![1u32, 3, 6, 1, 4, 1, 2021, 1, 1, 0]) == Some(
                ValueView::OctetString(utf8("net-snmp-rs "@ + "0.1.0"@)),
            )
            &&& table_answer(t, seq![1u32, 3, 6, 1, 4, 1, 2021, 1, 2, 0]) == Some(
                ValueView::OctetString(seq![]),
            )
            &&& table_answer(t, seq![1u32, 3, 6, 1, 4, 1, 2021, 1, 3, 0]) == Some(
                ValueView::OctetString(utf8("cross-platform sysinfo build"@)),
            )
        }),
{
    let t = version_group();
    let cols = seq![1u32, 2, 3];
    assert forall|j: int| 0 <= j < 3 implies (#[trigger] t[j]).0[8] == cols[j] by {}
    assert(t[0].0 =~= seq![1u32, 3, 6, 1, 4, 1, 2021, 1, 1, 0]);
    last_cell_answers(t, 0);
    assert(t[1].0 =~= seq![1u32, 3, 6, 1, 4, 1, 2021, 1, 2, 0]);
    last_cell_answers(t, 1);
    assert(t[2].0 =~= seq![1u32, 3, 6, 1, 4, 1, 2021, 1, 3, 0]);
    last_cell_answers(t, 2);
}

proof fn lemma_disks_are_listed_rows(ds: Seq<DiskSample>)
    ensures
        dsk_group(ds) == flat(Seq::new(ds.len(), |i: int| dsk_row((i + 1) as u32, ds[i]))),
    decreases ds.len(),
{
    let rows = Seq::new(ds.len(), |i: int| dsk_row((i + 1) as u32, ds[i]));
    if ds.len() > 0 {
        let t = ds.drop_last();
        lemma_disks_are_listed_rows(t);
        assert(rows.drop_last() =~= Seq::new(t.len(), |i: int| dsk_row((i + 1) as u32, t[i])));
        assert(rows.last() == dsk_row(((ds.len() - 1) + 1) as u32, ds.last()));
        assert(dsk_group(ds) == dsk_group(t) + rows.last());
    } else {
        assert(dsk_group(ds) =~= flat(rows));
    }
}

proof fn lemma_disks_are_listed_shape(x: DiskSample, i: int)
    ensures
        dsk_row((i + 1) as u32, x).len() == 7,
        forall|j: int|
            0 <= j < 7
                ==> (#[trigger] dsk_row((i + 1) as u32, x)[j]).0.len() >= 10
                    && dsk_row((i + 1) as u32, x)[j].0.skip(10)
                == seq![(i + 1) as u32],
{
    let row = dsk_row((i + 1) as u32, x);
    let ix = seq![(i + 1) as u32];
    assert forall|j: int| 0 <= j < 7 implies (#[trigger] row[j]).0.len() >= 10 && row[j].0.skip(
        10,
    ) == ix by {
        if j == 0 {
            assert(row[0].0.skip(10) =~= ix);
        }         else if j == 1 {
            assert(row[1].0.skip(10) =~= ix);
        }         else if j == 2 {
            assert(row[2].0.skip(10) =~= ix);
        }         else if j == 3 {
            assert(row[3].0.skip(10) =~= ix);
        }         else if j == 4 {
            assert(row[4].0.skip(10) =~= ix);
        }         else if j == 5 {
            assert(row[5].0.skip(10) =~= ix);
        }         else {
            assert(row[6].0.skip(10) =~= ix);
        }
    }
}

proof fn lemma_disks_are_listed_under(ds: Seq<DiskSample>)
    ensures
        all_under(dsk_group(ds), 7, 9),
    decreases ds.len(),
{
    let s = dsk_group(ds);
    if ds.len() > 0 {
        let t = ds.drop_last();
        lemma_disks_are_listed_under(t);
        let before = dsk_group(t);
        let row = dsk_row(((ds.len() - 1) + 1) as u32, ds.last());
        assert(s == before + row);
        assert forall|k: int| 0 <= k < s.len() implies (#[trigger] s[k]).0.len() > 7 && s[k].0[7]
            == 9 by {
            if k < before.len() {
                assert(s[k] == before[k]);
            } else {
                assert(s[k] == row[k - before.len()]);
            }
        }
    }
}

/// `dskTable` answers for each filesystem, in order, with its size, what is available, what is used
/// and the used part in percent.
pub proof fn disks_are_listed(ds: Seq<DiskSample>, k: int)
    requires
        0 <= k < ds.len(),
        ds.len() <= u32::MAX,
    ensures
        ({
            let x = ds[k];
            let t = dsk_group(ds);
            let at = seq![(k + 1) as u32];
            let used = vstd::math::max(x.total - x.available, 0);
            &&& table_answer(t, seq![1u32, 3, 6, 1, 4, 1, 2021, 9, 1, 1] + at) == Some(
                ValueView::Integer((k + 1) as i64),
            )
            &&& table_answer(t, seq![1u32, 3, 6, 1, 4, 1, 2021, 9, 1, 2] + at) == Some(
                ValueView::OctetString(utf8(x.mount@)),
            )
            &&& table_answer(t, seq![1u32, 3, 6, 1, 4, 1, 2021, 9, 1, 3] + at) == Some(
                ValueView::OctetString(utf8(x.fs@)),
            )
            &&& table_answer(t, seq![1u32, 3, 6, 1, 4, 1, 2021, 9, 1, 6] + at) == Some(
                ValueView::Integer(kilobytes(x.total as int)),
            )
            &&& table_answer(t, seq![1u32, 3, 6, 1, 4, 1, 2021, 9, 1, 7] + at) == Some(
                ValueView::Integer(kilobytes(x.available as int)),
            )
            &&& table_answer(t, seq![1u32, 3, 6, 1, 4, 1, 2021, 9, 1, 8] + at) == Some(
                ValueView::Integer(kilobytes(used)),
            )
            &&& table_answer(t, seq![1u32, 3, 6, 1, 4, 1, 2021, 9, 1, 9] + at) == Some(
                ValueView::Integer(
                    (if x.total > 0 { used * 100 / x.total as int } else { 0 }) as i64,
                ),
            )
        }),
{
    let rows = Seq::new(ds.len(), |i: int| dsk_row((i + 1) as u32, ds[i]));
    let ids = Seq::new(ds.len(), |i: int| seq![(i + 1) as u32]);
    lemma_disks_are_listed_rows(ds);
    assert forall|r: int, j: int|
        #![trigger rows[r][j]]
        k <= r < rows.len() && 0 <= j < rows[r].len() implies rows[r][j].0.len() >= 10
            && rows[r][j].0.skip(10) == ids[r] by {
        lemma_disks_are_listed_shape(ds[r], r);
    }
    assert forall|r: int| k < r < rows.len() implies #[trigger] ids[r] != ids[k] by {
        let p = seq![(r + 1) as u32];
        let q = seq![(k + 1) as u32];
        assert(p[0] != q[0]);
    }
    let row = rows[k];
    let at = ids[k];
    lemma_disks_are_listed_shape(ds[k], k);
    assert(row[0].0 =~= seq![1u32, 3, 6, 1, 4, 1, 2021, 9, 1, 1] + at);
    lemma_row_cell(rows, 10, ids, k, 0);
    assert(row[1].0 =~= seq![1u32, 3, 6, 1, 4, 1, 2021, 9, 1, 2] + at);
    lemma_row_cell(rows, 10, ids, k, 1);
    assert(row[2].0 =~= seq![1u32, 3, 6, 1, 4, 1, 2021, 9, 1, 3] + at);
    lemma_row_cell(rows, 10, ids, k, 2);
    assert(row[3].0 =~= seq![1u32, 3, 6, 1, 4, 1, 2021, 9, 1, 6] + at);
    lemma_row_cell(rows, 10, ids, k, 3);
    assert(row[4].0 =~= seq![1u32, 3, 6, 1, 4, 1, 2021, 9, 1, 7] + at);
    lemma_row_cell(rows, 10, ids, k, 4);
    assert(row[5].0 =~= seq![1u32, 3, 6, 1, 4, 1, 2021, 9, 1, 8] + at);
    lemma_row_cell(rows, 10, ids, k, 5);
    assert(row[6].0 =~= seq![1u32, 3, 6, 1, 4, 1, 2021, 9, 1, 9] + at);
    lemma_row_cell(rows, 10, ids, k, 6);
}

proof fn lemma_commands_are_listed_rows(es: Seq<ExecView>, outcomes: Seq<(i64, String)>)
    ensures
        ext_group(es, outcomes) == flat(
            Seq::new(
                es.len(),
                |i: int| ext_row((i + 1) as u32, es[i], outcomes[i].0, outcomes[i].1@),
            ),
        ),
    decreases es.len(),
{
    let rows = Seq::new(
        es.len(),
        |i: int| ext_row((i + 1) as u32, es[i], outcomes[i].0, outcomes[i].1@),
    );
    if es.len() > 0 {
        let t = es.drop_last();
        lemma_commands_are_listed_rows(t, outcomes);
        assert(
            rows.drop_last() =~= Seq::new(
                t.len(),
                |i: int| ext_row((i + 1) as u32, t[i], outcomes[i].0, outcomes[i].1@),
            )
        );
        assert(
            rows.last() == ext_row(
                ((es.len() - 1) + 1) as u32,
                es.last(),
                outcomes[(es.len() - 1)].0,
                outcomes[(es.len() - 1)].1@,
            )
        );
        assert(ext_group(es, outcomes) == ext_group(t, outcomes) + rows.last());
    } else {
        assert(ext_group(es, outcomes) =~= flat(rows));
    }
}

proof fn lemma_commands_are_listed_shape(x: ExecView, i: int, outcomes: Seq<(i64, String)>)
    ensures
        ext_row((i + 1) as u32, x, outcomes[i].0, outcomes[i].1@).len() == 5,
        forall|j: int|
            0 <= j < 5
                ==> (#[trigger] ext_row((i + 1) as u32, x, outcomes[i].0, outcomes[i].1@)[j]).0.len() >= 10
                && ext_row((i + 1) as u32, x, outcomes[i].0, outcomes[i].1@)[j].0.skip(10)
                == seq![(i + 1) as u32],
{
    let row = ext_row((i + 1) as u32, x, outcomes[i].0, outcomes[i].1@);
    let ix = seq![(i + 1) as u32];
    assert forall|j: int| 0 <= j < 5 implies (#[trigger] row[j]).0.len() >= 10 && row[j].0.skip(
        10,
    ) == ix by {
        if j == 0 {
            assert(row[0].0.skip(10) =~= ix);
        }         else if j == 1 {
            assert(row[1].0.skip(10) =~= ix);
        }         else if j == 2 {
            assert(row[2].0.skip(10) =~= ix);
        }         else if j == 3 {
            assert(row[3].0.skip(10) =~= ix);
        }         else {
            assert(row[4].0.skip(10) =~= ix);
        }
    }
}

proof fn lemma_commands_are_listed_under(es: Seq<ExecView>, outcomes: Seq<(i64, String)>)
    ensures
        all_under(ext_group(es, outcomes), 7, 8),
    decreases es.len(),
{
    let s = ext_group(es, outcomes);
    if es.len() > 0 {
        let t = es.drop_last();
        lemma_commands_are_listed_under(t, outcomes);
        let before = ext_group(t, outcomes);
        let row = ext_row(
            ((es.len() - 1) + 1) as u32,
            es.last(),
            outcomes[(es.len() - 1)].0,
            outcomes[(es.len() - 1)].1@,
        );
        assert(s == before + row);
        assert forall|k: int| 0 <= k < s.len() implies (#[trigger] s[k]).0.len() > 7 && s[k].0[7]
            == 8 by {
            if k < before.len() {
                assert(s[k] == before[k]);
            } else {
                assert(s[k] == row[k - before.len()]);
            }
        }
    }
}

/// `extTable` answers for each command, in order, with its name, its command line, and the code and
/// the line that its run gave.
pub proof fn commands_are_listed(es: Seq<ExecView>, outcomes: Seq<(i64, String)>, k: int)
    requires
        0 <= k < es.len(),
        es.len() <= u32::MAX,
    ensures
        ({
            let x = es[k];
            let t = ext_group(es, outcomes);
            let at = seq![(k + 1) as u32];
            &&& table_answer(t, seq![1u32, 3, 6, 1, 4, 1, 2021, 8, 1, 1] + at) == Some(
                ValueView::Integer((k + 1) as i64),
            )
            &&& table_answer(t, seq![1u32, 3, 6, 1, 4, 1, 2021, 8, 1, 2] + at) == Some(
                ValueView::OctetString(utf8(x.name)),
            )
            &&& table_answer(t, seq![1u32, 3, 6, 1, 4, 1, 2021, 8, 1, 3] + at) == Some(
                ValueView::OctetString(utf8(x.command + " "@ + joined(x.args))),
            )
            &&& table_answer(t, seq![1u32, 3, 6, 1, 4, 1, 2021, 8, 1, 4] + at) == Some(
                ValueView::Integer(outcomes[k].0),
            )
            &&& table_answer(t, seq![1u32, 3, 6, 1, 4, 1, 2021, 8, 1, 5] + at) == Some(
                ValueView::OctetString(utf8(outcomes[k].1@)),
            )
        }),
{
    let rows = Seq::new(
        es.len(),
        |i: int| ext_row((i + 1) as u32, es[i], outcomes[i].0, outcomes[i].1@),
    );
    let ids = Seq::new(es.len(), |i: int| seq![(i + 1) as u32]);
    lemma_commands_are_listed_rows(es, outcomes);
    assert forall|r: int, j: int|
        #![trigger rows[r][j]]
        k <= r < rows.len() && 0 <= j < rows[r].len() implies rows[r][j].0.len() >= 10
            && rows[r][j].0.skip(10) == ids[r] by {
        lemma_commands_are_listed_shape(es[r], r, outcomes);
    }
    assert forall|r: int| k < r < rows.len() implies #[trigger] ids[r] != ids[k] by {
        let p = seq![(r + 1) as u32];
        let q = seq![(k + 1) as u32];
        assert(p[0] != q[0]);
    }
    let row = rows[k];
    let at = ids[k];
    lemma_commands_are_listed_shape(es[k], k, outcomes);
    assert(row[0].0 =~= seq![1u32, 3, 6, 1, 4, 1, 2021, 8, 1, 1] + at);
    lemma_row_cell(rows, 10, ids, k, 0);
    assert(row[1].0 =~= seq![1u32, 3, 6, 1, 4, 1, 2021, 8, 1, 2] + at);
    lemma_row_cell(rows, 10, ids, k, 1);
    assert(row[2].0 =~= seq![1u32, 3, 6, 1, 4, 1, 2021, 8, 1, 3] + at);
    lemma_row_cell(rows, 10, ids, k, 2);
    assert(row[3].0 =~= seq![1u32, 3, 6, 1, 4, 1, 2021, 8, 1, 4] + at);
    lemma_row_cell(rows, 10, ids, k, 3);
    assert(row[4].0 =~= seq![1u32, 3, 6, 1, 4, 1, 2021, 8, 1, 5] + at);
    lemma_row_cell(rows, 10, ids, k, 4);
}

proof fn lemma_process_checks_are_listed_rows(es: Seq<ProcCheckEntry>, ps: Seq<ProcSample>)
    ensures
        pr_group(es, ps) == flat(
            Seq::new(
                es.len(),
                |i: int| pr_row((i + 1) as u32, es[i], named_count(ps, es[i].name@) as i64),
            ),
        ),
    decreases es.len(),
{
    let rows = Seq::new(
        es.len(),
        |i: int| pr_row((i + 1) as u32, es[i], named_count(ps, es[i].name@) as i64),
    );
    if es.len() > 0 {
        let t = es.drop_last();
        lemma_process_checks_are_listed_rows(t, ps);
        assert(
            rows.drop_last() =~= Seq::new(
                t.len(),
                |i: int| pr_row((i + 1) as u32, t[i], named_count(ps, t[i].name@) as i64),
            )
        );
        assert(
            rows.last() == pr_row(
                ((es.len() - 1) + 1) as u32,
                es.last(),
                named_count(ps, es.last().name@) as i64,
            )
        );
        assert(pr_group(es, ps) == pr_group(t, ps) + rows.last());
    } else {
        assert(pr_group(es, ps) =~= flat(rows));
    }
}

proof fn lemma_process_checks_are_listed_shape(x: ProcCheckEntry, i: int, ps: Seq<ProcSample>)
    ensures
        pr_row((i + 1) as u32, x, named_count(ps, x.name@) as i64).len() == 7,
        forall|j: int|
            0 <= j < 7
                ==> (#[trigger] pr_row((i + 1) as u32, x, named_count(ps, x.name@) as i64)[j]).0.len() >= 10
                && pr_row((i + 1) as u32, x, named_count(ps, x.name@) as i64)[j].0.skip(10)
                == seq![(i + 1) as u32],
{
    let row = pr_row((i + 1) as u32, x, named_count(ps, x.name@) as i64);
    let ix = seq![(i + 1) as u32];
    assert forall|j: int| 0 <= j < 7 implies (#[trigger] row[j]).0.len() >= 10 && row[j].0.skip(
        10,
    ) == ix by {
        if j == 0 {
            assert(row[0].0.skip(10) =~= ix);
        }         else if j == 1 {
            assert(row[1].0.skip(10) =~= ix);
        }         else if j == 2 {
            assert(row[2].0.skip(10) =~= ix);
        }         else if j == 3 {
            assert(row[3].0.skip(10) =~= ix);
        }         else if j == 4 {
            assert(row[4].0.skip(10) =~= ix);
        }         else if j == 5 {
            assert(row[5].0.skip(10) =~= ix);
        }         else {
            assert(row[6].0.skip(10) =~= ix);
        }
    }
}

proof fn lemma_process_checks_are_listed_under(es: Seq<ProcCheckEntry>, ps: Seq<ProcSample>)
    ensures
        all_under(pr_group(es, ps), 7, 2),
    decreases es.len(),
{
    let s = pr_group(es, ps);
    if es.len() > 0 {
        let t = es.drop_last();
        lemma_process_checks_are_listed_under(t, ps);
        let before = pr_group(t, ps);
        let row = pr_row(
            ((es.len() - 1) + 1) as u32,
            es.last(),
            named_count(ps, es.last().name@) as i64,
        );
        assert(s == before + row);
        assert forall|k: int| 0 <= k < s.len() implies (#[trigger] s[k]).0.len() > 7 && s[k].0[7]
            == 2 by {
            if k < before.len() {
                assert(s[k] == before[k]);
            } else {
                assert(s[k] == row[k - before.len()]);
            }
        }
    }
}

/// `prTable` answers for each check, in order, with its limits, the number of processes of that
/// name, and, where the number is outside the limits, a flag and a message that says so.
pub proof fn process_checks_are_listed(es: Seq<ProcCheckEntry>, ps: Seq<ProcSample>, k: int)
    requires
        0 <= k < es.len(),
        es.len() <= u32::MAX,
    ensures
        ({
            let x = es[k];
            let t = pr_group(es, ps);
            let at = seq![(k + 1) as u32];
            let n = named_count(ps, x.name@) as i64;
            let count = " (= "@ + signed_decimal(n as int);
            let said = if n > x.max {
                "Too many "@ + x.name@ + count + ") (> "@ + signed_decimal(x.max as int) + ")"@
            } else if n < x.min {
                "Too few "@ + x.name@ + count + ") (< "@ + signed_decimal(x.min as int) + ")"@
            } else {
                seq![]
            };
            &&& table_answer(t, seq![1u32, 3, 6, 1, 4, 1, 2021, 2, 1, 1] + at) == Some(
                ValueView::Integer((k + 1) as i64),
            )
            &&& table_answer(t, seq![1u32, 3, 6, 1, 4, 1, 2021, 2, 1, 2] + at) == Some(
                ValueView::OctetString(utf8(x.name@)),
            )
            &&& table_answer(t, seq![1u32, 3, 6, 1, 4, 1, 2021, 2, 1, 3] + at) == Some(
                ValueView::Integer(x.min),
            )
            &&& table_answer(t, seq![1u32, 3, 6, 1, 4, 1, 2021, 2, 1, 4] + at) == Some(
                ValueView::Integer(x.max),
            )
            &&& table_answer(t, seq![1u32, 3, 6, 1, 4, 1, 2021, 2, 1, 5] + at) == Some(
                ValueView::Integer(n),
            )
            &&& table_answer(t, seq![1u32, 3, 6, 1, 4, 1, 2021, 2, 1, 6] + at) == Some(
                ValueView::Integer(if x.min <= n <= x.max { 0 } else { 1 }),
            )
            &&& table_answer(t, seq![1u32, 3, 6, 1, 4, 1, 2021, 2, 1, 7] + at) == Some(
                ValueView::OctetString(utf8(said)),
            )
        }),
{
    let rows = Seq::new(
        es.len(),
        |i: int| pr_row((i + 1) as u32, es[i], named_count(ps, es[i].name@) as i64),
    );
    let ids = Seq::new(es.len(), |i: int| seq![(i + 1) as u32]);
    lemma_process_checks_are_listed_rows(es, ps);
    assert forall|r: int, j: int|
        #![trigger rows[r][j]]
        k <= r < rows.len() && 0 <= j < rows[r].len() implies rows[r][j].0.len() >= 10
            && rows[r][j].0.skip(10) == ids[r] by {
        lemma_process_checks_are_listed_shape(es[r], r, ps);
    }
    assert forall|r: int| k < r < rows.len() implies #[trigger] ids[r] != ids[k] by {
        let p = seq![(r + 1) as u32];
        let q = seq![(k + 1) as u32];
        assert(p[0] != q[0]);
    }
    let row = rows[k];
    let at = ids[k];
    lemma_process_checks_are_listed_shape(es[k], k, ps);
    assert(row[0].0 =~= seq![1u32, 3, 6, 1, 4, 1, 2021, 2, 1, 1] + at);
    lemma_row_cell(rows, 10, ids, k, 0);
    assert(row[1].0 =~= seq![1u32, 3, 6, 1, 4, 1, 2021, 2, 1, 2] + at);
    lemma_row_cell(rows, 10, ids, k, 1);
    assert(row[2].0 =~= seq![1u32, 3, 6, 1, 4, 1, 2021, 2, 1, 3] + at);
    lemma_row_cell(rows, 10, ids, k, 2);
    assert(row[3].0 =~= seq![1u32, 3, 6, 1, 4, 1, 2021, 2, 1, 4] + at);
    lemma_row_cell(rows, 10, ids, k, 3);
    assert(row[4].0 =~= seq![1u32, 3, 6, 1, 4, 1, 2021, 2, 1, 5] + at);
    lemma_row_cell(rows, 10, ids, k, 4);
    assert(row[5].0 =~= seq![1u32, 3, 6, 1, 4, 1, 2021, 2, 1, 6] + at);
    lemma_row_cell(rows, 10, ids, k, 5);
    assert(row[6].0 =~= seq![1u32, 3, 6, 1, 4, 1, 2021, 2, 1, 7] + at);
    lemma_row_cell(rows, 10, ids, k, 6);
    let x = es[k];
    let n = named_count(ps, x.name@) as i64;
    let count = " (= "@ + signed_decimal(n as int);
    assert(
        "Too many "@ + x.name@ + " (= "@ + signed_decimal(
            n as int,
        ) =~= "Too many "@ + x.name@ + count
    );
    assert(
        "Too few "@ + x.name@ + " (= "@ + signed_decimal(
            n as int,
        ) =~= "Too few "@ + x.name@ + count
    );
}

proof fn lemma_file_checks_are_listed_rows(es: Seq<FileCheckEntry>, stats: Seq<FileStat>)
    ensures
        file_group(es, stats) == flat(
            Seq::new(es.len(), |i: int| file_row((i + 1) as u32, es[i], stats[i])),
        ),
    decreases es.len(),
{
    let rows = Seq::new(es.len(), |i: int| file_row((i + 1) as u32, es[i], stats[i]));
    if es.len() > 0 {
        let t = es.drop_last();
        lemma_file_checks_are_listed_rows(t, stats);
        assert(
            rows.drop_last() =~= Seq::new(
                t.len(),
                |i: int| file_row((i + 1) as u32, t[i], stats[i]),
            )
        );
        assert(
            rows.last() == file_row(((es.len() - 1) + 1) as u32, es.last(), stats[(es.len() - 1)])
        );
        assert(file_group(es, stats) == file_group(t, stats) + rows.last());
    } else {
        assert(file_group(es, stats) =~= flat(rows));
    }
}

proof fn lemma_file_checks_are_listed_shape(x: FileCheckEntry, i: int, stats: Seq<FileStat>)
    ensures
        file_row((i + 1) as u32, x, stats[i]).len() == 6,
        forall|j: int|
            0 <= j < 6
                ==> (#[trigger] file_row((i + 1) as u32, x, stats[i])[j]).0.len() >= 10
                    && file_row((i + 1) as u32, x, stats[i])[j].0.skip(10)
                == seq![(i + 1) as u32],
{
    let row = file_row((i + 1) as u32, x, stats[i]);
    let ix = seq![(i + 1) as u32];
    assert forall|j: int| 0 <= j < 6 implies (#[trigger] row[j]).0.len() >= 10 && row[j].0.skip(
        10,
    ) == ix by {
        if j == 0 {
            assert(row[0].0.skip(10) =~= ix);
        }         else if j == 1 {
            assert(row[1].0.skip(10) =~= ix);
        }         else if j == 2 {
            assert(row[2].0.skip(10) =~= ix);
        }         else if j == 3 {
            assert(row[3].0.skip(10) =~= ix);
        }         else if j == 4 {
            assert(row[4].0.skip(10) =~= ix);
        }         else {
            assert(row[5].0.skip(10) =~= ix);
        }
    }
}

proof fn lemma_file_checks_are_listed_under(es: Seq<FileCheckEntry>, stats: Seq<FileStat>)
    ensures
        all_under(file_group(es, stats), 7, 3),
    decreases es.len(),
{
    let s = file_group(es, stats);
    if es.len() > 0 {
        let t = es.drop_last();
        lemma_file_checks_are_listed_under(t, stats);
        let before = file_group(t, stats);
        let row = file_row(((es.len() - 1) + 1) as u32, es.last(), stats[(es.len() - 1)]);
        assert(s == before + row);
        assert forall|k: int| 0 <= k < s.len() implies (#[trigger] s[k]).0.len() > 7 && s[k].0[7]
            == 3 by {
            if k < before.len() {
                assert(s[k] == before[k]);
            } else {
                assert(s[k] == row[k - before.len()]);
            }
        }
    }
}

/// `fileTable` answers for each check, in order, with the size and the limit, and, where the file
/// is larger than a limit above zero or cannot be read, a flag and a message that says so.
pub proof fn file_checks_are_listed(es: Seq<FileCheckEntry>, stats: Seq<FileStat>, k: int)
    requires
        0 <= k < es.len(),
        es.len() <= u32::MAX,
    ensures
        ({
            let x = es[k];
            let t = file_group(es, stats);
            let at = seq![(k + 1) as u32];
            let size = stats[k]->Size_0;
            let large = x.max_size > 0 && size > x.max_size;
            let said = if stats[k] is Failed {
                x.path@ + ": "@ + stats[k]->Failed_0@
            } else if large {
                x.name@ + " size "@ + decimal(size as nat) + " > "@ + decimal(x.max_size as nat)
            } else {
                seq![]
            };
            &&& table_answer(t, seq![1u32, 3, 6, 1, 4, 1, 2021, 3, 1, 1] + at) == Some(
                ValueView::Integer((k + 1) as i64),
            )
            &&& table_answer(t, seq![1u32, 3, 6, 1, 4, 1, 2021, 3, 1, 2] + at) == Some(
                ValueView::OctetString(utf8(x.name@)),
            )
            &&& table_answer(t, seq![1u32, 3, 6, 1, 4, 1, 2021, 3, 1, 3] + at) == Some(
                ValueView::Integer((if stats[k] is Failed { 0 } else { size as int }) as i64),
            )
            &&& table_answer(t, seq![1u32, 3, 6, 1, 4, 1, 2021, 3, 1, 4] + at) == Some(
                ValueView::Integer(x.max_size as i64),
            )
            &&& table_answer(t, seq![1u32, 3, 6, 1, 4, 1, 2021, 3, 1, 5] + at) == Some(
                ValueView::Integer(if stats[k] is Failed || large { 1 } else { 0 }),
            )
            &&& table_answer(t, seq![1u32, 3, 6, 1, 4, 1, 2021, 3, 1, 6] + at) == Some(
                ValueView::OctetString(utf8(said)),
            )
        }),
{
    let rows = Seq::new(es.len(), |i: int| file_row((i + 1) as u32, es[i], stats[i]));
    let ids = Seq::new(es.len(), |i: int| seq![(i + 1) as u32]);
    lemma_file_checks_are_listed_rows(es, stats);
    assert forall|r: int, j: int|
        #![trigger rows[r][j]]
        k <= r < rows.len() && 0 <= j < rows[r].len() implies rows[r][j].0.len() >= 10
            && rows[r][j].0.skip(10) == ids[r] by {
        lemma_file_checks_are_listed_shape(es[r], r, stats);
    }
    assert forall|r: int| k < r < rows.len() implies #[trigger] ids[r] != ids[k] by {
        let p = seq![(r + 1) as u32];
        let q = seq![(k + 1) as u32];
        assert(p[0] != q[0]);
    }
    let row = rows[k];
    let at = ids[k];
    lemma_file_checks_are_listed_shape(es[k], k, stats);
    assert(row[0].0 =~= seq![1u32, 3, 6, 1, 4, 1, 2021, 3, 1, 1] + at);
    lemma_row_cell(rows, 10, ids, k, 0);
    assert(row[1].0 =~= seq![1u32, 3, 6, 1, 4, 1, 2021, 3, 1, 2] + at);
    lemma_row_cell(rows, 10, ids, k, 1);
    assert(row[2].0 =~= seq![1u32, 3, 6, 1, 4, 1, 2021, 3, 1, 3] + at);
    lemma_row_cell(rows, 10, ids, k, 2);
    assert(row[3].0 =~= seq![1u32, 3, 6, 1, 4, 1, 2021, 3, 1, 4] + at);
    lemma_row_cell(rows, 10, ids, k, 3);
    assert(row[4].0 =~= seq![1u32, 3, 6, 1, 4, 1, 2021, 3, 1, 5] + at);
    lemma_row_cell(rows, 10, ids, k, 4);
    assert(row[5].0 =~= seq![1u32, 3, 6, 1, 4, 1, 2021, 3, 1, 6] + at);
    lemma_row_cell(rows, 10, ids, k, 5);
}

proof fn lemma_log_matches_are_listed_rows(es: Seq<LogMatchEntry>, bodies: Seq<Vec<u8>>)
    ensures
        log_group(es, bodies) == flat(
            Seq::new(
                es.len(),
                |i: int| log_row((i + 1) as u32, es[i], log_count(bodies[i]@, es[i])),
            ),
        ),
    decreases es.len(),
{
    let rows = Seq::new(
        es.len(),
        |i: int| log_row((i + 1) as u32, es[i], log_count(bodies[i]@, es[i])),
    );
    if es.len() > 0 {
        let t = es.drop_last();
        lemma_log_matches_are_listed_rows(t, bodies);
        assert(
            rows.drop_last() =~= Seq::new(
                t.len(),
                |i: int| log_row((i + 1) as u32, t[i], log_count(bodies[i]@, t[i])),
            )
        );
        assert(
            rows.last() == log_row(
                ((es.len() - 1) + 1) as u32,
                es.last(),
                log_count(bodies[(es.len() - 1)]@, es.last()),
            )
        );
        assert(log_group(es, bodies) == log_group(t, bodies) + rows.last());
    } else {
        assert(log_group(es, bodies) =~= flat(rows));
    }
}

proof fn lemma_log_matches_are_listed_shape(x: LogMatchEntry, i: int, bodies: Seq<Vec<u8>>)
    ensures
        log_row((i + 1) as u32, x, log_count(bodies[i]@, x)).len() == 5,
        forall|j: int|
            0 <= j < 5
                ==> (#[trigger] log_row((i + 1) as u32, x, log_count(bodies[i]@, x))[j]).0.len() >= 10
                && log_row((i + 1) as u32, x, log_count(bodies[i]@, x))[j].0.skip(10)
                == seq![(i + 1) as u32],
{
    let row = log_row((i + 1) as u32, x, log_count(bodies[i]@, x));
    let ix = seq![(i + 1) as u32];
    assert forall|j: int| 0 <= j < 5 implies (#[trigger] row[j]).0.len() >= 10 && row[j].0.skip(
        10,
    ) == ix by {
        if j == 0 {
            assert(row[0].0.skip(10) =~= ix);
        }         else if j == 1 {
            assert(row[1].0.skip(10) =~= ix);
        }         else if j == 2 {
            assert(row[2].0.skip(10) =~= ix);
        }         else if j == 3 {
            assert(row[3].0.skip(10) =~= ix);
        }         else {
            assert(row[4].0.skip(10) =~= ix);
        }
    }
}

proof fn lemma_log_matches_are_listed_under(es: Seq<LogMatchEntry>, bodies: Seq<Vec<u8>>)
    ensures
        all_under(log_group(es, bodies), 7, 16),
    decreases es.len(),
{
    let s = log_group(es, bodies);
    if es.len() > 0 {
        let t = es.drop_last();
        lemma_log_matches_are_listed_under(t, bodies);
        let before = log_group(t, bodies);
        let row = log_row(
            ((es.len() - 1) + 1) as u32,
            es.last(),
            log_count(bodies[(es.len() - 1)]@, es.last()),
        );
        assert(s == before + row);
        assert forall|k: int| 0 <= k < s.len() implies (#[trigger] s[k]).0.len() > 7 && s[k].0[7]
            == 16 by {
            if k < before.len() {
                assert(s[k] == before[k]);
            } else {
                assert(s[k] == row[k - before.len()]);
            }
        }
    }
}

/// `logMatchTable` answers for each match, in order, with its name, file and pattern, and with how
/// often the pattern is found.
pub proof fn log_matches_are_listed(es: Seq<LogMatchEntry>, bodies: Seq<Vec<u8>>, k: int)
    requires
        0 <= k < es.len(),
        es.len() <= u32::MAX,
    ensures
        ({
            let x = es[k];
            let t = log_group(es, bodies);
            let at = seq![(k + 1) as u32];
            &&& table_answer(t, seq![1u32, 3, 6, 1, 4, 1, 2021, 16, 1, 1] + at) == Some(
                ValueView::Integer((k + 1) as i64),
            )
            &&& table_answer(t, seq![1u32, 3, 6, 1, 4, 1, 2021, 16, 1, 2] + at) == Some(
                ValueView::OctetString(utf8(x.name@)),
            )
            &&& table_answer(t, seq![1u32, 3, 6, 1, 4, 1, 2021, 16, 1, 3] + at) == Some(
                ValueView::OctetString(utf8(x.path@)),
            )
            &&& table_answer(t, seq![1u32, 3, 6, 1, 4, 1, 2021, 16, 1, 4] + at) == Some(
                ValueView::OctetString(utf8(x.pattern@)),
            )
            &&& table_answer(t, seq![1u32, 3, 6, 1, 4, 1, 2021, 16, 1, 7] + at) == Some(
                ValueView::Counter32((log_count(bodies[k]@, x) % 0x1_0000_0000) as u32),
            )
        }),
{
    let rows = Seq::new(
        es.len(),
        |i: int| log_row((i + 1) as u32, es[i], log_count(bodies[i]@, es[i])),
    );
    let ids = Seq::new(es.len(), |i: int| seq![(i + 1) as u32]);
    lemma_log_matches_are_listed_rows(es, bodies);
    assert forall|r: int, j: int|
        #![trigger rows[r][j]]
        k <= r < rows.len() && 0 <= j < rows[r].len() implies rows[r][j].0.len() >= 10
            && rows[r][j].0.skip(10) == ids[r] by {
        lemma_log_matches_are_listed_shape(es[r], r, bodies);
    }
    assert forall|r: int| k < r < rows.len() implies #[trigger] ids[r] != ids[k] by {
        let p = seq![(r + 1) as u32];
        let q = seq![(k + 1) as u32];
        assert(p[0] != q[0]);
    }
    let row = rows[k];
    let at = ids[k];
    lemma_log_matches_are_listed_shape(es[k], k, bodies);
    assert(row[0].0 =~= seq![1u32, 3, 6, 1, 4, 1, 2021, 16, 1, 1] + at);
    lemma_row_cell(rows, 10, ids, k, 0);
    assert(row[1].0 =~= seq![1u32, 3, 6, 1, 4, 1, 2021, 16, 1, 2] + at);
    lemma_row_cell(rows, 10, ids, k, 1);
    assert(row[2].0 =~= seq![1u32, 3, 6, 1, 4, 1, 2021, 16, 1, 3] + at);
    lemma_row_cell(rows, 10, ids, k, 2);
    assert(row[3].0 =~= seq![1u32, 3, 6, 1, 4, 1, 2021, 16, 1, 4] + at);
    lemma_row_cell(rows, 10, ids, k, 3);
    assert(row[4].0 =~= seq![1u32, 3, 6, 1, 4, 1, 2021, 16, 1, 7] + at);
    lemma_row_cell(rows, 10, ids, k, 4);
}

/// `laTable` has three rows: the load over one, five and fifteen minutes, as text and in
/// hundredths.
#[verifier::rlimit(40)]
pub proof fn loads_are_listed(s: Snapshot, k: int)
    requires
        0 <= k < 3,
    ensures
        ({
            let t = la_group(s);
            let at = seq![(k + 1) as u32];
            let load = if k == 0 {
                s.load_avg.one
            } else if k == 1 {
                s.load_avg.five
            } else {
                s.load_avg.fifteen
            };
            let name = if k == 0 {
                "Load-1"@
            } else if k == 1 {
                "Load-5"@
            } else {
                "Load-15"@
            };
            &&& table_answer(t, seq![1u32, 3, 6, 1, 4, 1, 2021, 10, 1, 1] + at) == Some(
                ValueView::Integer((k + 1) as i64),
            )
            &&& table_answer(t, seq![1u32, 3, 6, 1, 4, 1, 2021, 10, 1, 2] + at) == Some(
                ValueView::OctetString(utf8(name)),
            )
            &&& table_answer(t, seq![1u32, 3, 6, 1, 4, 1, 2021, 10, 1, 3] + at) == Some(
                ValueView::OctetString(utf8(load.text@)),
            )
            &&& table_answer(t, seq![1u32, 3, 6, 1, 4, 1, 2021, 10, 1, 5] + at) == Some(
                ValueView::Integer(load.hundredths),
            )
        }),
{
    let t = la_group(s);
    let at = seq![(k + 1) as u32];
    assert(t.len() == 12);
    assert forall|j: int| 0 <= j < 12 implies (#[trigger] t[j]).0.len() == 11 && t[j].0[10] == j / 4
        + 1 && t[j].0[9] == (if j % 4 == 3 {
        5
    } else {
        j % 4 + 1
    }) by {}
    let b = 4 * k;
    assert(t[b].0 =~= seq![1u32, 3, 6, 1, 4, 1, 2021, 10, 1, 1] + at);
    assert(t[b + 1].0 =~= seq![1u32, 3, 6, 1, 4, 1, 2021, 10, 1, 2] + at);
    assert(t[b + 2].0 =~= seq![1u32, 3, 6, 1, 4, 1, 2021, 10, 1, 3] + at);
    assert(t[b + 3].0 =~= seq![1u32, 3, 6, 1, 4, 1, 2021, 10, 1, 5] + at);
    last_cell_answers(t, b);
    last_cell_answers(t, b + 1);
    last_cell_answers(t, b + 2);
    last_cell_answers(t, b + 3);
}

/// Every process of the name counts, whatever the case of its letters, and no other.
pub proof fn processes_are_counted_by_name(ps: Seq<ProcSample>, p: ProcSample, name: Seq<char>)
    ensures
        named_count(Seq::empty(), name) == 0,
        lowered(p.name@) == lowered(name) ==> named_count(ps.push(p), name) == named_count(ps, name)
            + 1,
        lowered(p.name@) != lowered(name)
            ==> named_count(ps.push(p), name) == named_count(ps, name),
{
    assert(ps.push(p).drop_last() =~= ps);
}

/// A pattern is counted where it stands, and counting goes on behind it; a text in which it stands
/// nowhere has none.
pub proof fn patterns_are_counted_one_after_the_other(
    text: Seq<char>,
    pattern: Seq<char>,
    rest: Seq<char>,
)
    requires
        pattern.len() > 0,
    ensures
        occurrences(pattern + rest, pattern) == 1 + occurrences(rest, pattern),
        (forall|i: int| 0 <= i <= text.len() ==> !starts_with(#[trigger] text.skip(i), pattern))
            ==> occurrences(text, pattern) == 0,
    decreases text.len(),
{
    let s = pattern + rest;
    assert(s.take(pattern.len() as int) =~= pattern);
    assert(s.skip(pattern.len() as int) =~= rest);
    if forall|i: int| 0 <= i <= text.len() ==> !starts_with(#[trigger] text.skip(i), pattern) {
        if text.len() >= pattern.len() {
            assert(text.skip(0) =~= text);
            let u = text.skip(1);
            assert forall|i: int| 0 <= i <= u.len() implies !starts_with(
                #[trigger] u.skip(i),
                pattern,
            ) by {
                assert(u.skip(i) =~= text.skip(i + 1));
            }
            patterns_are_counted_one_after_the_other(u, pattern, rest);
        }
    }
}

/// What is counted in a log begins at the offset, to its end.
pub proof fn logs_are_read_from_the_offset(body: Seq<u8>, offset: u64)
    ensures
        offset <= body.len() ==> body.take(offset as int) + log_tail(body, offset) == body,
        offset > body.len() ==> log_tail(body, offset) == Seq::<u8>::empty(),
{
    if offset <= body.len() {
        assert(body.take(offset as int) + log_tail(body, offset) =~= body);
    }
}

/// The `cpu` line gives the processor times, one number after the other, and changes nothing else.
pub proof fn cpu_line_gives_the_times(st: StatView, line: Seq<char>, ns: Seq<u64>)
    requires
        words(line).len() >= 8,
        words(line)[0] == "cpu"@,
        ns.len() == 7,
        forall|k: int| 0 <= k < 7 ==> words(line)[k + 1] == decimal(#[trigger] ns[k] as nat),
    ensures
        stat_line(st, line).cpu_jiffies == ns,
        stat_line(st, line).page == st.page,
        stat_line(st, line).swap == st.swap,
        stat_line(st, line).intr_total == st.intr_total,
        stat_line(st, line).ctxt_total == st.ctxt_total,
{
    let r = stat_line(st, line).cpu_jiffies;
    assert forall|k: int| 0 <= k < 7 implies r[k] == ns[k] by {
        decimal_reads_back(ns[k] as nat, u64::MAX as nat);
    }
    assert(r =~= ns);
}

/// The `page` and `swap` lines give what came in and what went out, and change nothing else.
pub proof fn paging_lines_give_in_and_out(st: StatView, line: Seq<char>, a: u64, b: u64)
    requires
        words(line).len() >= 3,
        words(line)[1] == decimal(a as nat),
        words(line)[2] == decimal(b as nat),
    ensures
        words(line)[0] == "page"@ ==> stat_line(st, line) == (StatView {
            page: seq![a, b],
            ..st
        }),
        words(line)[0] == "swap"@ ==> stat_line(st, line) == (StatView {
            swap: seq![a, b],
            ..st
        }),
{
    reveal_strlit("cpu");
    reveal_strlit("page");
    reveal_strlit("swap");
    assert("page"@[0] == 'p' && "swap"@[0] == 's' && "cpu"@.len() == 3);
    decimal_reads_back(a as nat, u64::MAX as nat);
    decimal_reads_back(b as nat, u64::MAX as nat);
    let r = stat_line(st, line);
    if words(line)[0] == "page"@ {
        assert(r.page =~= seq![a, b]);
    }
    if words(line)[0] == "swap"@ {
        assert(r.swap =~= seq![a, b]);
    }
}

/// The `intr` and `ctxt` lines give their first number, and change nothing else; other lines change
/// nothing.
pub proof fn counter_lines_give_the_first_number(st: StatView, line: Seq<char>, a: u64)
    requires
        words(line).len() >= 2,
        words(line)[1] == decimal(a as nat),
    ensures
        words(line)[0] == "intr"@ ==> stat_line(st, line) == (StatView { intr_total: a, ..st }),
        words(line)[0] == "ctxt"@ ==> stat_line(st, line) == (StatView { ctxt_total: a, ..st }),
        words(line)[0].len() > 4 ==> stat_line(st, line) == st,
{
    reveal_strlit("cpu");
    reveal_strlit("page");
    reveal_strlit("swap");
    reveal_strlit("intr");
    reveal_strlit("ctxt");
    assert("page"@[0] == 'p' && "swap"@[0] == 's' && "cpu"@.len() == 3 && "intr"@[0] == 'i'
        && "ctxt"@[0] == 'c');
    decimal_reads_back(a as nat, u64::MAX as nat);
}

/// The lines are read one after the other, and without any all is zero.
pub proof fn stat_lines_are_read_in_order(ls: Seq<Seq<char>>, l: Seq<char>)
    ensures
        stat_of(ls.push(l)) == stat_line(stat_of(ls), l),
        stat_of(Seq::empty()).cpu_jiffies == seq![0u64, 0, 0, 0, 0, 0, 0],
        stat_of(Seq::empty()).page == seq![0u64, 0],
        stat_of(Seq::empty()).swap == seq![0u64, 0],
        stat_of(Seq::empty()).intr_total == 0,
        stat_of(Seq::empty()).ctxt_total == 0,
{
    assert(ls.push(l).drop_last() =~= ls);
}

/// What a command prints counts up to its first line end, and one that ends without a code has
/// code 127.
pub proof fn first_line_and_code_are_kept(l: Seq<char>, rest: Seq<char>, c: i32)
    requires
        lacks(l, '\n'),
        l.len() > 0 ==> l[l.len() - 1] != '\r',
    ensures
        first_line(l + seq!['\n'] + rest) == l,
        first_line(l) == l,
        exit_code(Some(c)) == c,
        exit_code(None) == 127,
{
    lines_end_with_a_line_feed(l, rest);
    last_line_needs_no_line_feed(l);
    assert(lines(l + seq!['\n'] + rest)[0] == l);
    if l.len() == 0 {
        assert(l =~= Seq::empty());
    }
}

/// Arguments are joined with one blank between two.
pub proof fn blanks_join_arguments(args: Seq<Seq<char>>, a: Seq<char>)
    ensures
        joined(Seq::empty()) == Seq::<char>::empty(),
        joined(seq![a]) == a,
        args.len() > 0 ==> joined(args.push(a)) == joined(args) + " "@ + a,
{
    assert(args.push(a).drop_last() =~= args);
}

/// An `exec` line names the command, the program and its arguments, word by word. A comment, an
/// empty line and a line of one word name none.
#[verifier::rlimit(40)]
pub proof fn exec_lines_name_commands(
    name: Seq<char>,
    gap: Seq<char>,
    program: Seq<char>,
    rest: Seq<char>,
)
    requires
        is_plain_word(name),
        name[0] != '#',
        is_blank(gap),
        gap.len() > 0,
        is_plain_word(program),
        rest.len() > 0 ==> is_space(rest[0]) && !is_space(rest[rest.len() - 1]),
    ensures
        exec_line(name + gap + program + rest) == Some(
            ExecView { name, command: program, args: words(rest) },
        ),
        exec_line(name) is None,
        exec_line(seq!['#'] + name + gap + program) is None,
        exec_line(gap) is None,
{
    let e = Seq::<char>::empty();
    let s = name + gap + program + rest;
    assert(s[0] == name[0]);
    assert(s[s.len() - 1] == if rest.len() > 0 {
        rest[rest.len() - 1]
    } else {
        program[program.len() - 1]
    });
    trimming_takes_the_white_space(e, s, e);
    assert(e + s + e =~= s);
    let tail = gap + program + rest;
    assert(s =~= e + name + tail);
    assert(tail[0] == gap[0]);
    white_space_parts_words(e, name, tail);
    white_space_parts_words(gap, program, rest);
    assert(words(s) =~= seq![name, program] + words(rest));
    assert(words(s).skip(2) =~= words(rest));
    trimming_takes_the_white_space(e, name, e);
    assert(e + name + e =~= name);
    white_space_parts_words(e, name, e);
    white_space_parts_words(e, name, e);
    assert(words(e) =~= Seq::<Seq<char>>::empty());
    assert(words(name) =~= seq![name]);
    trimming_takes_the_white_space(gap, e, e);
    assert(gap + e + e =~= gap);
    let c = seq!['#'] + name + gap + program;
    assert(c[c.len() - 1] == program[program.len() - 1]);
    trimming_takes_the_white_space(e, c, e);
    assert(e + c + e =~= c);
    assert(c[0] == '#');
}

proof fn lemma_base_under(s: Snapshot, st: StatView)
    ensures
        all_under(memory_group(s), 7, 4),
        all_under(la_group(s), 7, 10),
        all_under(dsk_group(s.disks@), 7, 9),
        all_under(ss_cpu_group(s), 7, 11),
        all_under(ss_raw_group(st), 7, 11),
        all_under(version_group(), 7, 1),
{
    lemma_disks_are_listed_under(s.disks@);
    assert(la_group(s).len() == 12);
}

proof fn lemma_arc(s: Seq<CellView>, arc: u32, oid: Seq<u32>)
    requires
        all_under(s, 7, arc),
        oid.len() > 7,
    ensures
        oid[7] != arc ==> table_answer(s, oid) is None,
{
    if oid[7] != arc {
        other_arcs_are_not_answered(s, 7, arc, oid);
    }
}

/// The groups stand apart: each is answered for under its own arc as if it stood alone.
#[verifier::rlimit(40)]
pub proof fn base_groups_stand_apart(s: Snapshot, st: StatView, oid: Seq<u32>)
    requires
        oid.len() > 7,
    ensures
        oid[7] == 4 ==> table_answer(base_group(s, st), oid) == table_answer(memory_group(s), oid),
        oid[7] == 10 ==> table_answer(base_group(s, st), oid) == table_answer(la_group(s), oid),
        oid[7] == 9 ==> table_answer(base_group(s, st), oid) == table_answer(
            dsk_group(s.disks@),
            oid,
        ),
        oid[7] == 11 ==> table_answer(base_group(s, st), oid) == table_answer(
            ss_cpu_group(s) + ss_raw_group(st),
            oid,
        ),
        oid[7] == 1 ==> table_answer(base_group(s, st), oid) == table_answer(version_group(), oid),
        oid[7] == 2 || oid[7] == 3 || oid[7] == 8 || oid[7] == 16 ==> table_answer(
            base_group(s, st),
            oid,
        ) is None,
{
    lemma_base_under(s, st);
    let a = memory_group(s);
    let b = la_group(s);
    let c = dsk_group(s.disks@);
    let d = ss_cpu_group(s);
    let e = ss_raw_group(st);
    let f = version_group();
    lemma_arc(a, 4, oid);
    lemma_arc(b, 10, oid);
    lemma_arc(c, 9, oid);
    lemma_arc(d, 11, oid);
    lemma_arc(e, 11, oid);
    lemma_arc(f, 1, oid);
    later_cells_answer_first(a, b, oid);
    later_cells_answer_first(a + b, c, oid);
    later_cells_answer_first(a + b + c, d, oid);
    later_cells_answer_first(a + b + c + d, e, oid);
    later_cells_answer_first(a + b + c + d + e, f, oid);
    later_cells_answer_first(d, e, oid);
}

/// What is configured is answered for beside the groups, each table under its own arc, and what is
/// not configured is not there.
#[verifier::rlimit(40)]
pub proof fn configured_tables_stand_apart(
    s: Snapshot,
    st: StatView,
    c: UcdMibConfig,
    x: UcdReadings,
    oid: Seq<u32>,
)
    requires
        oid.len() > 7,
    ensures
        ({
            let r = table_answer(ucd_group(s, st, c, x), oid);
            &&& oid[7] == 8 ==> r == (match c.commands {
                Some(reg) => table_answer(ext_group(exec_views(reg.entries@), x.outcomes@), oid),
                None => None,
            })
            &&& oid[7] == 2 ==> r == (match c.proc_check {
                Some(reg) => table_answer(pr_group(reg.entries@, s.processes@), oid),
                None => None,
            })
            &&& oid[7] == 3 ==> r == (match c.file_check {
                Some(reg) => table_answer(file_group(reg.entries@, x.files@), oid),
                None => None,
            })
            &&& oid[7] == 16 ==> r == (match c.log_match {
                Some(reg) => table_answer(log_group(reg.entries@, x.logs@), oid),
                None => None,
            })
            &&& oid[7] != 2 && oid[7] != 3 && oid[7] != 8 && oid[7] != 16 ==> r == table_answer(
                base_group(s, st),
                oid,
            )
        }),
{
    let none = Seq::<CellView>::empty();
    let a = base_group(s, st);
    let p = match c.commands {
        Some(reg) => ext_group(exec_views(reg.entries@), x.outcomes@),
        None => none,
    };
    let q = match c.proc_check {
        Some(reg) => pr_group(reg.entries@, s.processes@),
        None => none,
    };
    let u = match c.file_check {
        Some(reg) => file_group(reg.entries@, x.files@),
        None => none,
    };
    let v = match c.log_match {
        Some(reg) => log_group(reg.entries@, x.logs@),
        None => none,
    };
    if let Some(reg) = c.commands {
        lemma_commands_are_listed_under(exec_views(reg.entries@), x.outcomes@);
    }
    if let Some(reg) = c.proc_check {
        lemma_process_checks_are_listed_under(reg.entries@, s.processes@);
    }
    if let Some(reg) = c.file_check {
        lemma_file_checks_are_listed_under(reg.entries@, x.files@);
    }
    if let Some(reg) = c.log_match {
        lemma_log_matches_are_listed_under(reg.entries@, x.logs@);
    }
    base_groups_stand_apart(s, st, oid);
    lemma_arc(p, 8, oid);
    lemma_arc(q, 2, oid);
    lemma_arc(u, 3, oid);
    lemma_arc(v, 16, oid);
    assert(all_under(none, 7, 17));
    other_arcs_are_not_answered(none, 7, (if oid[7] == 17 { 18 } else { 17 }), oid);
    assert(ucd_group(s, st, c, x) == a + p + q + u + v);
    later_cells_answer_first(a, p, oid);
    later_cells_answer_first(a + p, q, oid);
    later_cells_answer_first(a + p + q, u, oid);
    later_cells_answer_first(a + p + q + u, v, oid);
}

} // verus!
