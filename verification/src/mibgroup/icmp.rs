//! The ICMP group: its counters.

use vstd::prelude::*;

use crate::cells::cell;
use crate::cells::cells;
use crate::cells::collect_cells;
use crate::cells::is_table_of;
use crate::cells::push_row_cell;
use crate::cells::CellView;
use crate::mibgroup::kernel_text::columns_of;
use crate::mibgroup::kernel_text::counter_of;
use crate::mibgroup::kernel_text::find_columns;
use crate::oid::Oid;
use crate::registry::handler_states;
use crate::scalar::table_state;
use crate::scalar::FnHandler;
use crate::value::Value;
use crate::value::ValueView;

verus! {

/// The counters of the protocol.
#[derive(Clone, Copy, Debug, Default, PartialEq, Eq, Structural)]
pub struct IcmpScalars {
    /// `icmpInMsgs`.
    pub in_msgs: u32,
    /// `icmpInErrors`.
    pub in_errors: u32,
    /// `icmpInDestUnreachs`.
    pub in_dest_unreachs: u32,
    /// `icmpInTimeExcds`.
    pub in_time_excds: u32,
    /// `icmpInParmProbs`.
    pub in_parm_probs: u32,
    /// `icmpInSrcQuenchs`.
    pub in_src_quenchs: u32,
    /// `icmpInRedirects`.
    pub in_redirects: u32,
    /// `icmpInEchos`.
    pub in_echos: u32,
    /// `icmpInEchoReps`.
    pub in_echo_reps: u32,
    /// `icmpInTimestamps`.
    pub in_timestamps: u32,
    /// `icmpInTimestampReps`.
    pub in_timestamp_reps: u32,
    /// `icmpInAddrMasks`.
    pub in_addr_masks: u32,
    /// `icmpInAddrMaskReps`.
    pub in_addr_mask_reps: u32,
    /// `icmpOutMsgs`.
    pub out_msgs: u32,
    /// `icmpOutErrors`.
    pub out_errors: u32,
    /// `icmpOutDestUnreachs`.
    pub out_dest_unreachs: u32,
    /// `icmpOutTimeExcds`.
    pub out_time_excds: u32,
    /// `icmpOutParmProbs`.
    pub out_parm_probs: u32,
    /// `icmpOutSrcQuenchs`.
    pub out_src_quenchs: u32,
    /// `icmpOutRedirects`.
    pub out_redirects: u32,
    /// `icmpOutEchos`.
    pub out_echos: u32,
    /// `icmpOutEchoReps`.
    pub out_echo_reps: u32,
    /// `icmpOutTimestamps`.
    pub out_timestamps: u32,
    /// `icmpOutTimestampReps`.
    pub out_timestamp_reps: u32,
    /// `icmpOutAddrMasks`.
    pub out_addr_masks: u32,
    /// `icmpOutAddrMaskReps`.
    pub out_addr_mask_reps: u32,
}

/// Counters that are all zero.
pub open spec fn no_icmp() -> IcmpScalars {
    IcmpScalars {
        in_msgs: 0,
        in_errors: 0,
        in_dest_unreachs: 0,
        in_time_excds: 0,
        in_parm_probs: 0,
        in_src_quenchs: 0,
        in_redirects: 0,
        in_echos: 0,
        in_echo_reps: 0,
        in_timestamps: 0,
        in_timestamp_reps: 0,
        in_addr_masks: 0,
        in_addr_mask_reps: 0,
        out_msgs: 0,
        out_errors: 0,
        out_dest_unreachs: 0,
        out_time_excds: 0,
        out_parm_probs: 0,
        out_src_quenchs: 0,
        out_redirects: 0,
        out_echos: 0,
        out_echo_reps: 0,
        out_timestamps: 0,
        out_timestamp_reps: 0,
        out_addr_masks: 0,
        out_addr_mask_reps: 0,
    }
}

/// The counters that a text of the kernel holds behind `Icmp:`; zero where it holds none.
pub open spec fn icmp_scalars_of(text: Seq<char>) -> IcmpScalars {
    match columns_of(text, "Icmp:"@) {
        Some(c) => IcmpScalars {
            in_msgs: counter_of(c, "InMsgs"@, false),
            in_errors: counter_of(c, "InErrors"@, false),
            in_dest_unreachs: counter_of(c, "InDestUnreachs"@, false),
            in_time_excds: counter_of(c, "InTimeExcds"@, false),
            in_parm_probs: counter_of(c, "InParmProbs"@, false),
            in_src_quenchs: counter_of(c, "InSrcQuenchs"@, false),
            in_redirects: counter_of(c, "InRedirects"@, false),
            in_echos: counter_of(c, "InEchos"@, false),
            in_echo_reps: counter_of(c, "InEchoReps"@, false),
            in_timestamps: counter_of(c, "InTimestamps"@, false),
            in_timestamp_reps: counter_of(c, "InTimestampReps"@, false),
            in_addr_masks: counter_of(c, "InAddrMasks"@, false),
            in_addr_mask_reps: counter_of(c, "InAddrMaskReps"@, false),
            out_msgs: counter_of(c, "OutMsgs"@, false),
            out_errors: counter_of(c, "OutErrors"@, false),
            out_dest_unreachs: counter_of(c, "OutDestUnreachs"@, false),
            out_time_excds: counter_of(c, "OutTimeExcds"@, false),
            out_parm_probs: counter_of(c, "OutParmProbs"@, false),
            out_src_quenchs: counter_of(c, "OutSrcQuenchs"@, false),
            out_redirects: counter_of(c, "OutRedirects"@, false),
            out_echos: counter_of(c, "OutEchos"@, false),
            out_echo_reps: counter_of(c, "OutEchoReps"@, false),
            out_timestamps: counter_of(c, "OutTimestamps"@, false),
            out_timestamp_reps: counter_of(c, "OutTimestampReps"@, false),
            out_addr_masks: counter_of(c, "OutAddrMasks"@, false),
            out_addr_mask_reps: counter_of(c, "OutAddrMaskReps"@, false),
        },
        None => no_icmp(),
    }
}

/// Read the counters that a text of the kernel holds behind `Icmp:`.
pub fn parse_icmp_scalars(snmp: &str) -> (r: IcmpScalars)
    ensures
        r == icmp_scalars_of(snmp@),
{
    match find_columns(snmp, "Icmp:") {
        Some(c) => IcmpScalars {
            in_msgs: c.counter("InMsgs", false),
            in_errors: c.counter("InErrors", false),
            in_dest_unreachs: c.counter("InDestUnreachs", false),
            in_time_excds: c.counter("InTimeExcds", false),
            in_parm_probs: c.counter("InParmProbs", false),
            in_src_quenchs: c.counter("InSrcQuenchs", false),
            in_redirects: c.counter("InRedirects", false),
            in_echos: c.counter("InEchos", false),
            in_echo_reps: c.counter("InEchoReps", false),
            in_timestamps: c.counter("InTimestamps", false),
            in_timestamp_reps: c.counter("InTimestampReps", false),
            in_addr_masks: c.counter("InAddrMasks", false),
            in_addr_mask_reps: c.counter("InAddrMaskReps", false),
            out_msgs: c.counter("OutMsgs", false),
            out_errors: c.counter("OutErrors", false),
            out_dest_unreachs: c.counter("OutDestUnreachs", false),
            out_time_excds: c.counter("OutTimeExcds", false),
            out_parm_probs: c.counter("OutParmProbs", false),
            out_src_quenchs: c.counter("OutSrcQuenchs", false),
            out_redirects: c.counter("OutRedirects", false),
            out_echos: c.counter("OutEchos", false),
            out_echo_reps: c.counter("OutEchoReps", false),
            out_timestamps: c.counter("OutTimestamps", false),
            out_timestamp_reps: c.counter("OutTimestampReps", false),
            out_addr_masks: c.counter("OutAddrMasks", false),
            out_addr_mask_reps: c.counter("OutAddrMaskReps", false),
        },
        None => IcmpScalars {
            in_msgs: 0,
            in_errors: 0,
            in_dest_unreachs: 0,
            in_time_excds: 0,
            in_parm_probs: 0,
            in_src_quenchs: 0,
            in_redirects: 0,
            in_echos: 0,
            in_echo_reps: 0,
            in_timestamps: 0,
            in_timestamp_reps: 0,
            in_addr_masks: 0,
            in_addr_mask_reps: 0,
            out_msgs: 0,
            out_errors: 0,
            out_dest_unreachs: 0,
            out_time_excds: 0,
            out_parm_probs: 0,
            out_src_quenchs: 0,
            out_redirects: 0,
            out_echos: 0,
            out_echo_reps: 0,
            out_timestamps: 0,
            out_timestamp_reps: 0,
            out_addr_masks: 0,
            out_addr_mask_reps: 0,
        },
    }
}

/// The root of the group.
pub open spec fn icmp_root() -> Seq<u32> {
    seq![1u32, 3, 6, 1, 2, 1, 5]
}

/// The cells of the counters.
pub open spec fn icmp_scalar_rows(s: IcmpScalars) -> Seq<CellView> {
    let e = icmp_root();
    seq![
        cell(e, 1, 0, ValueView::Counter32(s.in_msgs)),
        cell(e, 2, 0, ValueView::Counter32(s.in_errors)),
        cell(e, 3, 0, ValueView::Counter32(s.in_dest_unreachs)),
        cell(e, 4, 0, ValueView::Counter32(s.in_time_excds)),
        cell(e, 5, 0, ValueView::Counter32(s.in_parm_probs)),
        cell(e, 6, 0, ValueView::Counter32(s.in_src_quenchs)),
        cell(e, 7, 0, ValueView::Counter32(s.in_redirects)),
        cell(e, 8, 0, ValueView::Counter32(s.in_echos)),
        cell(e, 9, 0, ValueView::Counter32(s.in_echo_reps)),
        cell(e, 10, 0, ValueView::Counter32(s.in_timestamps)),
        cell(e, 11, 0, ValueView::Counter32(s.in_timestamp_reps)),
        cell(e, 12, 0, ValueView::Counter32(s.in_addr_masks)),
        cell(e, 13, 0, ValueView::Counter32(s.in_addr_mask_reps)),
        cell(e, 14, 0, ValueView::Counter32(s.out_msgs)),
        cell(e, 15, 0, ValueView::Counter32(s.out_errors)),
        cell(e, 16, 0, ValueView::Counter32(s.out_dest_unreachs)),
        cell(e, 17, 0, ValueView::Counter32(s.out_time_excds)),
        cell(e, 18, 0, ValueView::Counter32(s.out_parm_probs)),
        cell(e, 19, 0, ValueView::Counter32(s.out_src_quenchs)),
        cell(e, 20, 0, ValueView::Counter32(s.out_redirects)),
        cell(e, 21, 0, ValueView::Counter32(s.out_echos)),
        cell(e, 22, 0, ValueView::Counter32(s.out_echo_reps)),
        cell(e, 23, 0, ValueView::Counter32(s.out_timestamps)),
        cell(e, 24, 0, ValueView::Counter32(s.out_timestamp_reps)),
        cell(e, 25, 0, ValueView::Counter32(s.out_addr_masks)),
        cell(e, 26, 0, ValueView::Counter32(s.out_addr_mask_reps)),
    ]
}

fn raw_scalar_cells(s: &IcmpScalars) -> (r: Vec<(Oid, Value)>)
    ensures
        cells(r@) == icmp_scalar_rows(*s),
{
    let e: [u32; 7] = [1, 3, 6, 1, 2, 1, 5];
    assert(e@ =~= icmp_root());
    let mut out: Vec<(Oid, Value)> = Vec::new();
    push_row_cell(&mut out, &e, 1, 0, Value::Counter32(s.in_msgs));
    push_row_cell(&mut out, &e, 2, 0, Value::Counter32(s.in_errors));
    push_row_cell(&mut out, &e, 3, 0, Value::Counter32(s.in_dest_unreachs));
    push_row_cell(&mut out, &e, 4, 0, Value::Counter32(s.in_time_excds));
    push_row_cell(&mut out, &e, 5, 0, Value::Counter32(s.in_parm_probs));
    push_row_cell(&mut out, &e, 6, 0, Value::Counter32(s.in_src_quenchs));
    push_row_cell(&mut out, &e, 7, 0, Value::Counter32(s.in_redirects));
    push_row_cell(&mut out, &e, 8, 0, Value::Counter32(s.in_echos));
    push_row_cell(&mut out, &e, 9, 0, Value::Counter32(s.in_echo_reps));
    push_row_cell(&mut out, &e, 10, 0, Value::Counter32(s.in_timestamps));
    push_row_cell(&mut out, &e, 11, 0, Value::Counter32(s.in_timestamp_reps));
    push_row_cell(&mut out, &e, 12, 0, Value::Counter32(s.in_addr_masks));
    push_row_cell(&mut out, &e, 13, 0, Value::Counter32(s.in_addr_mask_reps));
    push_row_cell(&mut out, &e, 14, 0, Value::Counter32(s.out_msgs));
    push_row_cell(&mut out, &e, 15, 0, Value::Counter32(s.out_errors));
    push_row_cell(&mut out, &e, 16, 0, Value::Counter32(s.out_dest_unreachs));
    push_row_cell(&mut out, &e, 17, 0, Value::Counter32(s.out_time_excds));
    push_row_cell(&mut out, &e, 18, 0, Value::Counter32(s.out_parm_probs));
    push_row_cell(&mut out, &e, 19, 0, Value::Counter32(s.out_src_quenchs));
    push_row_cell(&mut out, &e, 20, 0, Value::Counter32(s.out_redirects));
    push_row_cell(&mut out, &e, 21, 0, Value::Counter32(s.out_echos));
    push_row_cell(&mut out, &e, 22, 0, Value::Counter32(s.out_echo_reps));
    push_row_cell(&mut out, &e, 23, 0, Value::Counter32(s.out_timestamps));
    push_row_cell(&mut out, &e, 24, 0, Value::Counter32(s.out_timestamp_reps));
    push_row_cell(&mut out, &e, 25, 0, Value::Counter32(s.out_addr_masks));
    push_row_cell(&mut out, &e, 26, 0, Value::Counter32(s.out_addr_mask_reps));
    assert(cells(out@) =~= icmp_scalar_rows(*s));
    out
}

/// The cells of the counters, in order.
pub fn icmp_scalar_cells(scalars: &IcmpScalars) -> (r: Vec<(Oid, Value)>)
    ensures
        is_table_of(cells(r@), icmp_scalar_rows(*scalars)),
{
    collect_cells(raw_scalar_cells(scalars))
}

/// The handlers of the group, for the text with the counters.
pub fn icmp_handlers(snmp: &str) -> (r: Vec<FnHandler>)
    ensures
        handler_states(r@) == seq![
            table_state(icmp_root(), icmp_scalar_rows(icmp_scalars_of(snmp@))),
        ],
{
    let root = Oid::new(vec![1, 3, 6, 1, 2, 1, 5]);
    assert(root@ =~= icmp_root());
    let scalars = parse_icmp_scalars(snmp);
    let r = vec![FnHandler::table(root, raw_scalar_cells(&scalars))];
    assert(handler_states(r@) =~= seq![
        table_state(icmp_root(), icmp_scalar_rows(icmp_scalars_of(snmp@))),
    ]);
    r
}

} // verus!
