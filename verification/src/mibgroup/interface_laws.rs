//! What the interface tables answer of each interface.

use vstd::prelude::*;

use crate::mibgroup::interfaces::if_row;
use crate::mibgroup::interfaces::if_rows;
use crate::mibgroup::interfaces::if_x_row;
use crate::mibgroup::interfaces::if_x_rows;
use crate::mibgroup::interfaces::Interface;
use crate::table_laws::flat;
use crate::table_laws::lemma_row_cell;
use crate::table_laws::table_answer;
use crate::value::utf8;
use crate::value::ValueView;

verus! {

proof fn lemma_interfaces_are_listed_rows(fs: Seq<Interface>)
    ensures
        if_rows(fs) == flat(Seq::new(fs.len(), |i: int| if_row(fs[i]))),
    decreases fs.len(),
{
    let rows = Seq::new(fs.len(), |i: int| if_row(fs[i]));
    if fs.len() > 0 {
        let t = fs.drop_last();
        lemma_interfaces_are_listed_rows(t);
        assert(rows.drop_last() =~= Seq::new(t.len(), |i: int| if_row(t[i])));
        assert(rows.last() == if_row(fs.last()));
        assert(if_rows(fs) == if_rows(t) + rows.last());
    } else {
        assert(if_rows(fs) =~= flat(rows));
    }
}

proof fn lemma_interfaces_are_listed_shape(x: Interface, i: int)
    ensures
        if_row(x).len() == 17,
        forall|j: int|
            0 <= j < 17 ==> (#[trigger] if_row(x)[j]).0.len() >= 10 && if_row(x)[j].0.skip(10)
                == seq![x.index],
{
    let row = if_row(x);
    let ix = seq![x.index];
    assert forall|j: int| 0 <= j < 17 implies (#[trigger] row[j]).0.len() >= 10 && row[j].0.skip(
        10,
    ) == ix by {
        if j == 0 {
            assert(row[0].0.skip(10) =~= ix);
        }         else if j == 1 {
            assert(row[1].0.skip(10) =~= ix);
        }         else if j == 2 {
            assert(row[2].0.skip(10) =~= ix);
        }         else if j == 3 {
            assert(row[3].0.skip(10) =~= ix);
        }         else if j == 4 {
            assert(row[4].0.skip(10) =~= ix);
        }         else if j == 5 {
            assert(row[5].0.skip(10) =~= ix);
        }         else if j == 6 {
            assert(row[6].0.skip(10) =~= ix);
        }         else if j == 7 {
            assert(row[7].0.skip(10) =~= ix);
        }         else if j == 8 {
            assert(row[8].0.skip(10) =~= ix);
        }         else if j == 9 {
            assert(row[9].0.skip(10) =~= ix);
        }         else if j == 10 {
            assert(row[10].0.skip(10) =~= ix);
        }         else if j == 11 {
            assert(row[11].0.skip(10) =~= ix);
        }         else if j == 12 {
            assert(row[12].0.skip(10) =~= ix);
        }         else if j == 13 {
            assert(row[13].0.skip(10) =~= ix);
        }         else if j == 14 {
            assert(row[14].0.skip(10) =~= ix);
        }         else if j == 15 {
            assert(row[15].0.skip(10) =~= ix);
        }         else {
            assert(row[16].0.skip(10) =~= ix);
        }
    }
}

/// `ifTable` answers for each interface with its own type, size, speed, address, state and
/// counters, each counter in its own column with its low 32 bits.
pub proof fn interfaces_are_listed(fs: Seq<Interface>, k: int)
    requires
        0 <= k < fs.len(),
        forall|j: int| k < j < fs.len() ==> #[trigger] fs[j].index != fs[k].index,
    ensures
        ({
            let x = fs[k];
            let t = if_rows(fs);
            let at = seq![x.index];
            &&& table_answer(t, seq![1u32, 3, 6, 1, 2, 1, 2, 2, 1, 1] + at) == Some(
                ValueView::Integer(x.index as i64),
            )
            &&& table_answer(t, seq![1u32, 3, 6, 1, 2, 1, 2, 2, 1, 2] + at) == Some(
                ValueView::OctetString(utf8(x.stat.name@)),
            )
            &&& table_answer(t, seq![1u32, 3, 6, 1, 2, 1, 2, 2, 1, 3] + at) == Some(
                ValueView::Integer(x.if_type),
            )
            &&& table_answer(t, seq![1u32, 3, 6, 1, 2, 1, 2, 2, 1, 4] + at) == Some(
                ValueView::Integer(x.mtu),
            )
            &&& table_answer(t, seq![1u32, 3, 6, 1, 2, 1, 2, 2, 1, 5] + at) == Some(
                ValueView::Gauge32(x.speed_bps),
            )
            &&& table_answer(t, seq![1u32, 3, 6, 1, 2, 1, 2, 2, 1, 6] + at) == Some(
                ValueView::OctetString(x.phys_address@),
            )
            &&& table_answer(t, seq![1u32, 3, 6, 1, 2, 1, 2, 2, 1, 7] + at) == Some(
                ValueView::Integer(if x.admin_up { 1 } else { 2 }),
            )
            &&& table_answer(t, seq![1u32, 3, 6, 1, 2, 1, 2, 2, 1, 8] + at) == Some(
                ValueView::Integer(if x.oper_up { 1 } else { 2 }),
            )
            &&& table_answer(t, seq![1u32, 3, 6, 1, 2, 1, 2, 2, 1, 9] + at) == Some(
                ValueView::TimeTicks(0),
            )
            &&& table_answer(t, seq![1u32, 3, 6, 1, 2, 1, 2, 2, 1, 10] + at) == Some(
                ValueView::Counter32((x.stat.rx_bytes as int % 0x1_0000_0000) as u32),
            )
            &&& table_answer(t, seq![1u32, 3, 6, 1, 2, 1, 2, 2, 1, 11] + at) == Some(
                ValueView::Counter32((x.stat.rx_packets as int % 0x1_0000_0000) as u32),
            )
            &&& table_answer(t, seq![1u32, 3, 6, 1, 2, 1, 2, 2, 1, 13] + at) == Some(
                ValueView::Counter32((x.stat.rx_drop as int % 0x1_0000_0000) as u32),
            )
            &&& table_answer(t, seq![1u32, 3, 6, 1, 2, 1, 2, 2, 1, 14] + at) == Some(
                ValueView::Counter32((x.stat.rx_errs as int % 0x1_0000_0000) as u32),
            )
            &&& table_answer(t, seq![1u32, 3, 6, 1, 2, 1, 2, 2, 1, 16] + at) == Some(
                ValueView::Counter32((x.stat.tx_bytes as int % 0x1_0000_0000) as u32),
            )
            &&& table_answer(t, seq![1u32, 3, 6, 1, 2, 1, 2, 2, 1, 17] + at) == Some(
                ValueView::Counter32((x.stat.tx_packets as int % 0x1_0000_0000) as u32),
            )
            &&& table_answer(t, seq![1u32, 3, 6, 1, 2, 1, 2, 2, 1, 19] + at) == Some(
                ValueView::Counter32((x.stat.tx_drop as int % 0x1_0000_0000) as u32),
            )
            &&& table_answer(t, seq![1u32, 3, 6, 1, 2, 1, 2, 2, 1, 20] + at) == Some(
                ValueView::Counter32((x.stat.tx_errs as int % 0x1_0000_0000) as u32),
            )
        }),
{
    let rows = Seq::new(fs.len(), |i: int| if_row(fs[i]));
    let ids = Seq::new(fs.len(), |i: int| seq![fs[i].index]);
    lemma_interfaces_are_listed_rows(fs);
    assert forall|r: int, j: int|
        #![trigger rows[r][j]]
        k <= r < rows.len() && 0 <= j < rows[r].len() implies rows[r][j].0.len() >= 10
            && rows[r][j].0.skip(10) == ids[r] by {
        lemma_interfaces_are_listed_shape(fs[r], r);
    }
    assert forall|r: int| k < r < rows.len() implies #[trigger] ids[r] != ids[k] by {
        let p = seq![fs[r].index];
        let q = seq![fs[k].index];
        assert(p[0] != q[0]);
    }
    let row = rows[k];
    let at = ids[k];
    lemma_interfaces_are_listed_shape(fs[k], k);
    assert(row[0].0 =~= seq![1u32, 3, 6, 1, 2, 1, 2, 2, 1, 1] + at);
    lemma_row_cell(rows, 10, ids, k, 0);
    assert(row[1].0 =~= seq![1u32, 3, 6, 1, 2, 1, 2, 2, 1, 2] + at);
    lemma_row_cell(rows, 10, ids, k, 1);
    assert(row[2].0 =~= seq![1u32, 3, 6, 1, 2, 1, 2, 2, 1, 3] + at);
    lemma_row_cell(rows, 10, ids, k, 2);
    assert(row[3].0 =~= seq![1u32, 3, 6, 1, 2, 1, 2, 2, 1, 4] + at);
    lemma_row_cell(rows, 10, ids, k, 3);
    assert(row[4].0 =~= seq![1u32, 3, 6, 1, 2, 1, 2, 2, 1, 5] + at);
    lemma_row_cell(rows, 10, ids, k, 4);
    assert(row[5].0 =~= seq![1u32, 3, 6, 1, 2, 1, 2, 2, 1, 6] + at);
    lemma_row_cell(rows, 10, ids, k, 5);
    assert(row[6].0 =~= seq![1u32, 3, 6, 1, 2, 1, 2, 2, 1, 7] + at);
    lemma_row_cell(rows, 10, ids, k, 6);
    assert(row[7].0 =~= seq![1u32, 3, 6, 1, 2, 1, 2, 2, 1, 8] + at);
    lemma_row_cell(rows, 10, ids, k, 7);
    assert(row[8].0 =~= seq![1u32, 3, 6, 1, 2, 1, 2, 2, 1, 9] + at);
    lemma_row_cell(rows, 10, ids, k, 8);
    assert(row[9].0 =~= seq![1u32, 3, 6, 1, 2, 1, 2, 2, 1, 10] + at);
    lemma_row_cell(rows, 10, ids, k, 9);
    assert(row[10].0 =~= seq![1u32, 3, 6, 1, 2, 1, 2, 2, 1, 11] + at);
    lemma_row_cell(rows, 10, ids, k, 10);
    assert(row[11].0 =~= seq![1u32, 3, 6, 1, 2, 1, 2, 2, 1, 13] + at);
    lemma_row_cell(rows, 10, ids, k, 11);
    assert(row[12].0 =~= seq![1u32, 3, 6, 1, 2, 1, 2, 2, 1, 14] + at);
    lemma_row_cell(rows, 10, ids, k, 12);
    assert(row[13].0 =~= seq![1u32, 3, 6, 1, 2, 1, 2, 2, 1, 16] + at);
    lemma_row_cell(rows, 10, ids, k, 13);
    assert(row[14].0 =~= seq![1u32, 3, 6, 1, 2, 1, 2, 2, 1, 17] + at);
    lemma_row_cell(rows, 10, ids, k, 14);
    assert(row[15].0 =~= seq![1u32, 3, 6, 1, 2, 1, 2, 2, 1, 19] + at);
    lemma_row_cell(rows, 10, ids, k, 15);
    assert(row[16].0 =~= seq![1u32, 3, 6, 1, 2, 1, 2, 2, 1, 20] + at);
    lemma_row_cell(rows, 10, ids, k, 16);
}

proof fn lemma_interface_extensions_are_listed_rows(fs: Seq<Interface>)
    ensures
        if_x_rows(fs) == flat(Seq::new(fs.len(), |i: int| if_x_row(fs[i]))),
    decreases fs.len(),
{
    let rows = Seq::new(fs.len(), |i: int| if_x_row(fs[i]));
    if fs.len() > 0 {
        let t = fs.drop_last();
        lemma_interface_extensions_are_listed_rows(t);
        assert(rows.drop_last() =~= Seq::new(t.len(), |i: int| if_x_row(t[i])));
        assert(rows.last() == if_x_row(fs.last()));
        assert(if_x_rows(fs) == if_x_rows(t) + rows.last());
    } else {
        assert(if_x_rows(fs) =~= flat(rows));
    }
}

proof fn lemma_interface_extensions_are_listed_shape(x: Interface, i: int)
    ensures
        if_x_row(x).len() == 11,
        forall|j: int|
            0 <= j < 11 ==> (#[trigger] if_x_row(x)[j]).0.len() >= 11 && if_x_row(x)[j].0.skip(11)
                == seq![x.index],
{
    let row = if_x_row(x);
    let ix = seq![x.index];
    assert forall|j: int| 0 <= j < 11 implies (#[trigger] row[j]).0.len() >= 11 && row[j].0.skip(
        11,
    ) == ix by {
        if j == 0 {
            assert(row[0].0.skip(11) =~= ix);
        }         else if j == 1 {
            assert(row[1].0.skip(11) =~= ix);
        }         else if j == 2 {
            assert(row[2].0.skip(11) =~= ix);
        }         else if j == 3 {
            assert(row[3].0.skip(11) =~= ix);
        }         else if j == 4 {
            assert(row[4].0.skip(11) =~= ix);
        }         else if j == 5 {
            assert(row[5].0.skip(11) =~= ix);
        }         else if j == 6 {
            assert(row[6].0.skip(11) =~= ix);
        }         else if j == 7 {
            assert(row[7].0.skip(11) =~= ix);
        }         else if j == 8 {
            assert(row[8].0.skip(11) =~= ix);
        }         else if j == 9 {
            assert(row[9].0.skip(11) =~= ix);
        }         else {
            assert(row[10].0.skip(11) =~= ix);
        }
    }
}

/// `ifXTable` answers for each interface with its name, its full counters and its speed in millions
/// of bits per second.
pub proof fn interface_extensions_are_listed(fs: Seq<Interface>, k: int)
    requires
        0 <= k < fs.len(),
        forall|j: int| k < j < fs.len() ==> #[trigger] fs[j].index != fs[k].index,
    ensures
        ({
            let x = fs[k];
            let t = if_x_rows(fs);
            let at = seq![x.index];
            &&& table_answer(t, seq![1u32, 3, 6, 1, 2, 1, 31, 1, 1, 1, 1] + at) == Some(
                ValueView::OctetString(utf8(x.stat.name@)),
            )
            &&& table_answer(t, seq![1u32, 3, 6, 1, 2, 1, 31, 1, 1, 1, 2] + at) == Some(
                ValueView::Counter32(0),
            )
            &&& table_answer(t, seq![1u32, 3, 6, 1, 2, 1, 31, 1, 1, 1, 3] + at) == Some(
                ValueView::Counter32(0),
            )
            &&& table_answer(t, seq![1u32, 3, 6, 1, 2, 1, 31, 1, 1, 1, 4] + at) == Some(
                ValueView::Counter32(0),
            )
            &&& table_answer(t, seq![1u32, 3, 6, 1, 2, 1, 31, 1, 1, 1, 5] + at) == Some(
                ValueView::Counter32(0),
            )
            &&& table_answer(t, seq![1u32, 3, 6, 1, 2, 1, 31, 1, 1, 1, 6] + at) == Some(
                ValueView::Counter64(x.stat.rx_bytes),
            )
            &&& table_answer(t, seq![1u32, 3, 6, 1, 2, 1, 31, 1, 1, 1, 7] + at) == Some(
                ValueView::Counter64(x.stat.rx_packets),
            )
            &&& table_answer(t, seq![1u32, 3, 6, 1, 2, 1, 31, 1, 1, 1, 10] + at) == Some(
                ValueView::Counter64(x.stat.tx_bytes),
            )
            &&& table_answer(t, seq![1u32, 3, 6, 1, 2, 1, 31, 1, 1, 1, 11] + at) == Some(
                ValueView::Counter64(x.stat.tx_packets),
            )
            &&& table_answer(t, seq![1u32, 3, 6, 1, 2, 1, 31, 1, 1, 1, 15] + at) == Some(
                ValueView::Gauge32((x.speed_bps / 1_000_000) as u32),
            )
            &&& table_answer(t, seq![1u32, 3, 6, 1, 2, 1, 31, 1, 1, 1, 18] + at) == Some(
                ValueView::OctetString(utf8(x.stat.name@)),
            )
        }),
{
    let rows = Seq::new(fs.len(), |i: int| if_x_row(fs[i]));
    let ids = Seq::new(fs.len(), |i: int| seq![fs[i].index]);
    lemma_interface_extensions_are_listed_rows(fs);
    assert forall|r: int, j: int|
        #![trigger rows[r][j]]
        k <= r < rows.len() && 0 <= j < rows[r].len() implies rows[r][j].0.len() >= 11
            && rows[r][j].0.skip(11) == ids[r] by {
        lemma_interface_extensions_are_listed_shape(fs[r], r);
    }
    assert forall|r: int| k < r < rows.len() implies #[trigger] ids[r] != ids[k] by {
        let p = seq![fs[r].index];
        let q = seq![fs[k].index];
        assert(p[0] != q[0]);
    }
    let row = rows[k];
    let at = ids[k];
    lemma_interface_extensions_are_listed_shape(fs[k], k);
    assert(row[0].0 =~= seq![1u32, 3, 6, 1, 2, 1, 31, 1, 1, 1, 1] + at);
    lemma_row_cell(rows, 11, ids, k, 0);
    assert(row[1].0 =~= seq![1u32, 3, 6, 1, 2, 1, 31, 1, 1, 1, 2] + at);
    lemma_row_cell(rows, 11, ids, k, 1);
    assert(row[2].0 =~= seq![1u32, 3, 6, 1, 2, 1, 31, 1, 1, 1, 3] + at);
    lemma_row_cell(rows, 11, ids, k, 2);
    assert(row[3].0 =~= seq![1u32, 3, 6, 1, 2, 1, 31, 1, 1, 1, 4] + at);
    lemma_row_cell(rows, 11, ids, k, 3);
    assert(row[4].0 =~= seq![1u32, 3, 6, 1, 2, 1, 31, 1, 1, 1, 5] + at);
    lemma_row_cell(rows, 11, ids, k, 4);
    assert(row[5].0 =~= seq![1u32, 3, 6, 1, 2, 1, 31, 1, 1, 1, 6] + at);
    lemma_row_cell(rows, 11, ids, k, 5);
    assert(row[6].0 =~= seq![1u32, 3, 6, 1, 2, 1, 31, 1, 1, 1, 7] + at);
    lemma_row_cell(rows, 11, ids, k, 6);
    assert(row[7].0 =~= seq![1u32, 3, 6, 1, 2, 1, 31, 1, 1, 1, 10] + at);
    lemma_row_cell(rows, 11, ids, k, 7);
    assert(row[8].0 =~= seq![1u32, 3, 6, 1, 2, 1, 31, 1, 1, 1, 11] + at);
    lemma_row_cell(rows, 11, ids, k, 8);
    assert(row[9].0 =~= seq![1u32, 3, 6, 1, 2, 1, 31, 1, 1, 1, 15] + at);
    lemma_row_cell(rows, 11, ids, k, 9);
    assert(row[10].0 =~= seq![1u32, 3, 6, 1, 2, 1, 31, 1, 1, 1, 18] + at);
    lemma_row_cell(rows, 11, ids, k, 10);
}


/// The octet counters of `ifTable` are the low 32 bits of those of `ifXTable`: what is sent in one
/// is what is sent in the other, and so for what is received. What an interface has received makes
/// no difference to what it is said to have sent, nor the other way round.
pub proof fn octets_agree_in_both_tables(fs: Seq<Interface>, gs: Seq<Interface>, k: int)
    requires
        0 <= k < fs.len(),
        forall|j: int| k < j < fs.len() ==> #[trigger] fs[j].index != fs[k].index,
        gs.len() == fs.len(),
        forall|j: int| 0 <= j < fs.len() ==> (#[trigger] gs[j]).index == fs[j].index,
    ensures
        ({
            let at = seq![fs[k].index];
            let received = table_answer(if_rows(fs), seq![1u32, 3, 6, 1, 2, 1, 2, 2, 1, 10] + at);
            let sent = table_answer(if_rows(fs), seq![1u32, 3, 6, 1, 2, 1, 2, 2, 1, 16] + at);
            let received_x = table_answer(
                if_x_rows(fs),
                seq![1u32, 3, 6, 1, 2, 1, 31, 1, 1, 1, 6] + at,
            );
            let sent_x = table_answer(
                if_x_rows(fs),
                seq![1u32, 3, 6, 1, 2, 1, 31, 1, 1, 1, 10] + at,
            );
            &&& received_x matches Some(ValueView::Counter64(n)) && received == Some(
                ValueView::Counter32((n as int % 0x1_0000_0000) as u32),
            )
            &&& sent_x matches Some(ValueView::Counter64(n)) && sent == Some(
                ValueView::Counter32((n as int % 0x1_0000_0000) as u32),
            )
            &&& gs[k].stat.tx_bytes == fs[k].stat.tx_bytes ==> table_answer(
                if_rows(gs),
                seq![1u32, 3, 6, 1, 2, 1, 2, 2, 1, 16] + at,
            ) == sent
            &&& gs[k].stat.rx_bytes == fs[k].stat.rx_bytes ==> table_answer(
                if_rows(gs),
                seq![1u32, 3, 6, 1, 2, 1, 2, 2, 1, 10] + at,
            ) == received
        }),
{
    assert forall|j: int| k < j < gs.len() implies #[trigger] gs[j].index != gs[k].index by {
        assert(gs[j].index == fs[j].index);
        assert(fs[j].index != fs[k].index);
    }
    interfaces_are_listed(fs, k);
    interface_extensions_are_listed(fs, k);
    interfaces_are_listed(gs, k);
}

} // verus!
