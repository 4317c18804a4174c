//! The sensor tables: temperatures, fans and voltages.

use vstd::prelude::*;

use crate::cells::append_cells;
use crate::cells::cell;
use crate::cells::cells;
use crate::cells::collect_cells;
use crate::cells::is_table_of;
use crate::cells::push_row_cell;
use crate::cells::row_number;
use crate::cells::CellView;
use crate::handler::MibHandler;
use crate::hardware::SensorReading;
use crate::hardware::SensorReadings;
use crate::oid::Oid;
use crate::scalar::table_state;
use crate::scalar::FnHandler;
use crate::value::text_value;
use crate::value::utf8;
use crate::value::Value;
use crate::value::ValueView;

verus! {

/// The number of the temperature table.
pub const TEMP_TABLE: u32 = 2;

/// The number of the fan table.
pub const FAN_TABLE: u32 = 3;

/// The number of the voltage table.
pub const VOLT_TABLE: u32 = 4;

/// The root of the sensor group.
pub open spec fn lm_sensors_root() -> Seq<u32> {
    seq![1u32, 3, 6, 1, 4, 1, 2021, 13]
}

/// The row prefix of a sensor table.
pub open spec fn sensor_entry(table_id: u32) -> Seq<u32> {
    seq![1u32, 3, 6, 1, 4, 1, 2021, 13, 16, table_id, 1]
}

/// The cells of one sensor: index, device, value, and a critical value that is not known.
pub open spec fn sensor_row(table_id: u32, index: u32, r: SensorReading) -> Seq<CellView> {
    let e = sensor_entry(table_id);
    seq![
        cell(e, 1, index, ValueView::Integer(index as i64)),
        cell(e, 2, index, ValueView::OctetString(utf8(r.name@))),
        cell(e, 3, index, ValueView::Integer(r.value)),
        cell(e, 4, index, ValueView::Integer(0)),
    ]
}

/// The cells of one sensor table, row by row.
pub open spec fn sensor_rows(table_id: u32, readings: Seq<SensorReading>) -> Seq<CellView>
    decreases readings.len(),
{
    if readings.len() == 0 {
        seq![]
    } else {
        sensor_rows(table_id, readings.drop_last()) + sensor_row(
            table_id,
            readings.len() as u32,
            readings.last(),
        )
    }
}

/// The cells of the three sensor tables.
pub open spec fn all_sensor_rows(s: SensorReadings) -> Seq<CellView> {
    sensor_rows(TEMP_TABLE, s.temps@) + sensor_rows(FAN_TABLE, s.fans@) + sensor_rows(
        VOLT_TABLE,
        s.voltages@,
    )
}

fn raw_sensor_cells(table_id: u32, readings: &[SensorReading]) -> (r: Vec<(Oid, Value)>)
    ensures
        cells(r@) == sensor_rows(table_id, readings@),
{
    let e: [u32; 11] = [1, 3, 6, 1, 4, 1, 2021, 13, 16, table_id, 1];
    assert(e@ =~= sensor_entry(table_id));
    let mut out: Vec<(Oid, Value)> = Vec::new();
    let mut i: usize = 0;
    proof {
        assert(readings@.take(0) =~= Seq::<SensorReading>::empty());
        assert(cells(out@) =~= Seq::<CellView>::empty());
    }
    while i < readings.len()
        invariant
            i <= readings@.len(),
            e@ == sensor_entry(table_id),
            cells(out@) == sensor_rows(table_id, readings@.take(i as int)),
        decreases readings@.len() - i,
    {
        let ghost before = cells(out@);
        let r = &readings[i];
        let index: u32 = row_number(i);
        proof {
            assert(readings@.take(i + 1).drop_last() =~= readings@.take(i as int));
            assert(readings@.take(i + 1).last() == *r);
        }
        push_row_cell(&mut out, &e, 1, index, Value::Integer(index as i64));
        push_row_cell(&mut out, &e, 2, index, text_value(r.name.as_str()));
        push_row_cell(&mut out, &e, 3, index, Value::Integer(r.value));
        push_row_cell(&mut out, &e, 4, index, Value::Integer(0));
        assert(cells(out@) =~= before + sensor_row(table_id, index, *r));
        i += 1;
    }
    assert(readings@.take(i as int) =~= readings@);
    out
}

/// The cells of the temperature table, in order.
pub fn temp_sensor_cells(readings: &[SensorReading]) -> (r: Vec<(Oid, Value)>)
    ensures
        is_table_of(cells(r@), sensor_rows(TEMP_TABLE, readings@)),
{
    collect_cells(raw_sensor_cells(TEMP_TABLE, readings))
}

/// The handler of the three sensor tables.
pub fn lm_sensors_handler(sensors: &SensorReadings) -> (r: FnHandler)
    ensures
        r.state() == table_state(lm_sensors_root(), all_sensor_rows(*sensors)),
{
    let root = Oid::new(vec![1, 3, 6, 1, 4, 1, 2021, 13]);
    assert(root@ =~= lm_sensors_root());
    let mut out = raw_sensor_cells(TEMP_TABLE, sensors.temps.as_slice());
    append_cells(&mut out, raw_sensor_cells(FAN_TABLE, sensors.fans.as_slice()));
    append_cells(&mut out, raw_sensor_cells(VOLT_TABLE, sensors.voltages.as_slice()));
    FnHandler::table(root, out)
}

} // verus!
