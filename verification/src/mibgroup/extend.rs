//! The extension table: the output of commands, indexed by their names.

use vstd::prelude::*;

use crate::cells::arcs_of_bytes;
use crate::cells::byte_arcs;
use crate::cells::cells;
use crate::cells::push_cell;
use crate::cells::CellView;
use crate::handler::MibHandler;
use crate::mibgroup::ucd::exec_views;
use crate::mibgroup::ucd::exit_code;
use crate::mibgroup::ucd::first_line;
use crate::mibgroup::ucd::first_line_of;
use crate::mibgroup::ucd::joined;
use crate::mibgroup::ucd::push_joined;
use crate::mibgroup::ucd::ExecEntry;
use crate::mibgroup::ucd::ExecOutput;
use crate::mibgroup::ucd::ExecRegistry;
use crate::mibgroup::ucd::ExecView;
use crate::oid::Oid;
use crate::scalar::sorted_state;
use crate::scalar::FnHandler;
use crate::text::bytes_text;
use crate::text::chars_of;
use crate::text::lines;
use crate::text::split_lines;
use crate::text::string_of;
use crate::text::text_of_bytes;
use crate::text::trim_end;
use crate::text::trimmed_end;
use crate::value::bytes_of;
use crate::value::text_value;
use crate::value::utf8;
use crate::value::Value;
use crate::value::ValueView;

verus! {

/// The root of the extension table, which is its row prefix too.
pub open spec fn extend_entry() -> Seq<u32> {
    seq![1u32, 3, 6, 1, 4, 1, 8072, 1, 3, 2, 3, 1]
}

/// A name as an index: one arc per byte.
pub open spec fn name_index(name: Seq<char>) -> Seq<u32> {
    byte_arcs(utf8(name))
}

/// A name as an index.
pub fn string_index(name: &str) -> (r: Vec<u32>)
    ensures
        r@ == name_index(name@),
{
    let b = bytes_of(name);
    arcs_of_bytes(b.as_slice())
}

/// A command with its arguments.
pub open spec fn command_line(e: ExecView) -> Seq<char> {
    if e.args.len() == 0 {
        e.command
    } else {
        e.command + " "@ + joined(e.args)
    }
}

/// A command with its arguments.
pub fn command_string(e: &ExecEntry) -> (r: String)
    ensures
        r@ == command_line(e@),
{
    let mut s = e.command.clone();
    if e.args.len() > 0 {
        s.append(" ");
        push_joined(&mut s, e.args.as_slice());
    }
    s
}

/// The output without the white space behind it.
pub fn output_of_text(text: &str) -> (r: String)
    ensures
        r@ == trim_end(text@),
{
    let v = chars_of(text);
    string_of(trimmed_end(v.as_slice()).as_slice())
}

/// The exit code and the output of a run; 127 and nothing where the command could not be run.
pub fn run_full(output: &Option<ExecOutput>) -> (r: (i64, String))
    ensures
        match output {
            Some(o) => r.0 == exit_code(o.code) && r.1@ == trim_end(bytes_text(o.stdout@)),
            None => r.0 == 127 && r.1@.len() == 0,
        },
{
    match output {
        Some(o) => {
            let code: i64 = match o.code {
                Some(c) => c as i64,
                None => 127,
            };
            let text = text_of_bytes(o.stdout.as_slice());
            (code, output_of_text(text.as_str()))
        },
        None => (127, String::new()),
    }
}

/// The cells of one command, with its exit code and its output: command, exit code, first line,
/// output, and the number of lines.
pub open spec fn extend_row(e: ExecView, code: i64, full: Seq<char>) -> Seq<CellView> {
    let p = extend_entry();
    let i = name_index(e.name);
    seq![
        (p.push(1) + i, ValueView::OctetString(utf8(command_line(e)))),
        (p.push(2) + i, ValueView::Integer(code)),
        (p.push(3) + i, ValueView::OctetString(utf8(first_line(full)))),
        (p.push(4) + i, ValueView::OctetString(utf8(full))),
        (p.push(5) + i, ValueView::Integer(lines(full).len() as i64)),
    ]
}

/// The cells of commands, one after the other.
pub open spec fn extend_group(es: Seq<ExecView>, outcomes: Seq<(i64, String)>) -> Seq<CellView>
    decreases es.len(),
{
    if es.len() == 0 {
        seq![]
    } else {
        let k = es.len() - 1;
        extend_group(es.drop_last(), outcomes) + extend_row(
            es.last(),
            outcomes[k].0,
            outcomes[k].1@,
        )
    }
}

fn push_extend_row(out: &mut Vec<(Oid, Value)>, e: &ExecEntry, code: i64, full: &str)
    ensures
        cells(final(out)@) == cells(old(out)@) + extend_row(e@, code, full@),
{
    let p: [u32; 12] = [1, 3, 6, 1, 4, 1, 8072, 1, 3, 2, 3, 1];
    assert(p@ =~= extend_entry());
    let ghost before = cells(out@);
    let index = string_index(e.name.as_str());
    let i = index.as_slice();
    let v = chars_of(full);
    let count: i64 = split_lines(v.as_slice()).len() as i64;
    push_cell(out, &p, 1, i, text_value(command_string(e).as_str()));
    push_cell(out, &p, 2, i, Value::Integer(code));
    push_cell(out, &p, 3, i, text_value(first_line_of(full).as_str()));
    push_cell(out, &p, 4, i, text_value(full));
    push_cell(out, &p, 5, i, Value::Integer(count));
    assert(cells(out@) =~= before + extend_row(e@, code, full@));
}

/// The cells of the extension table, for the exit code and the output of each command.
pub fn extend_cells(reg: &ExecRegistry, outcomes: &[(i64, String)]) -> (r: Vec<(Oid, Value)>)
    requires
        outcomes@.len() == reg.entries@.len(),
    ensures
        cells(r@) == extend_group(exec_views(reg.entries@), outcomes@),
{
    let ghost all = exec_views(reg.entries@);
    let mut out: Vec<(Oid, Value)> = Vec::new();
    let mut i: usize = 0;
    proof {
        assert(all.take(0) =~= Seq::<ExecView>::empty());
        assert(cells(out@) =~= Seq::<CellView>::empty());
    }
    while i < reg.entries.len()
        invariant
            i <= reg.entries@.len(),
            outcomes@.len() == reg.entries@.len(),
            all == exec_views(reg.entries@),
            cells(out@) == extend_group(all.take(i as int), outcomes@),
        decreases reg.entries@.len() - i,
    {
        proof {
            assert(all.take(i + 1).drop_last() =~= all.take(i as int));
            assert(all.take(i + 1).last() == reg.entries@[i as int]@);
        }
        push_extend_row(&mut out, &reg.entries[i], outcomes[i].0, outcomes[i].1.as_str());
        i += 1;
    }
    assert(all.take(i as int) =~= all);
    out
}

/// The handler of the extension table.
pub fn extend_handler(reg: &ExecRegistry, outcomes: &[(i64, String)]) -> (r: FnHandler)
    requires
        outcomes@.len() == reg.entries@.len(),
    ensures
        r.state() == sorted_state(
            extend_entry(),
            extend_group(exec_views(reg.entries@), outcomes@),
        ),
{
    FnHandler::new(extend_root(), extend_cells(reg, outcomes))
}

/// The root of the extension table.
pub fn extend_root() -> (r: Oid)
    ensures
        r@ == extend_entry(),
{
    let r = Oid::new(vec![1, 3, 6, 1, 4, 1, 8072, 1, 3, 2, 3, 1]);
    assert(r@ =~= extend_entry());
    r
}

/// The root of the enterprise.
pub fn netsnmp_root() -> (r: Oid)
    ensures
        r@ == seq![1u32, 3, 6, 1, 4, 1, 8072],
{
    let r = Oid::new(vec![1, 3, 6, 1, 4, 1, 8072]);
    assert(r@ =~= seq![1u32, 3, 6, 1, 4, 1, 8072]);
    r
}

} // verus!
