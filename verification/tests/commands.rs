use netsnmp_agent::handler::MibHandler;
use netsnmp_agent::mibgroup::collector::{
    DiskSample, LoadAverages, LoadAvg, ProcSample, Snapshot,
};
use netsnmp_agent::mibgroup::extend::{
    command_string, extend_cells, extend_handler, output_of_text, run_full, string_index,
};
use netsnmp_agent::mibgroup::pass::{
    parse_pass_directive, parse_pass_reply, split_command, value_from_pass, value_to_pass,
    PassHandler, PassRequest, PersistReader,
};
use netsnmp_agent::mibgroup::ucd::{
    count_named, count_occurrences, ext_table_cells, file_cells, log_match_cells,
    parse_exec_directives, parse_proc_stat_text, pr_table_cells, ss_cpu_raw_cells, ucd_cells,
    ucd_handler, version_cells, ExecEntry, ExecOutput, ExecRegistry, FileCheckRegistry, FileStat,
    LogMatchRegistry, ProcCheckRegistry, ProcStat, UcdMibConfig, UcdReadings,
};
use netsnmp_agent::oid::Oid;
use netsnmp_agent::value::{Ipv4Addr, Value};

const NS_EXTEND_OUTPUT1: [u32; 12] = [1, 3, 6, 1, 4, 1, 8072, 1, 3, 2, 3, 1];
const COL_RESULT: u32 = 2;
const COL_OUTPUT1LINE: u32 = 3;
const COL_NUM_LINES: u32 = 5;

fn find(cells: &[(Oid, Value)], name: &str) -> Option<Value> {
    cells
        .iter()
        .find(|(o, _)| o.to_string() == name)
        .map(|(_, v)| v.clone())
}

fn extend_oid(column: u32, name: &str) -> Oid {
    let mut idx = NS_EXTEND_OUTPUT1.to_vec();
    idx.push(column);
    idx.extend(string_index(name));
    Oid::new(idx)
}

fn output(code: i32, stdout: &[u8]) -> Option<ExecOutput> {
    Some(ExecOutput {
        code: Some(code),
        stdout: stdout.to_vec(),
    })
}

#[test]
fn extend_exposes_echo_output() {
    let mut reg = ExecRegistry::new();
    reg.add("pingcheck", "echo", vec!["hello".to_string()]);
    let cells = extend_cells(&reg, &[run_full(&output(0, b"hello\n"))]);
    let target = extend_oid(COL_OUTPUT1LINE, "pingcheck").to_string();
    assert_eq!(
        find(&cells, &target),
        Some(Value::OctetString(b"hello".to_vec())),
        "nsExtendOutput1Line for pingcheck"
    );
    let target = extend_oid(COL_RESULT, "pingcheck").to_string();
    assert_eq!(find(&cells, &target), Some(Value::Integer(0)));
    assert_eq!(command_string(&reg.entries()[0]), "echo hello");
}

#[test]
fn extend_handler_get_returns_value() {
    let mut reg = ExecRegistry::new();
    reg.add("greet", "echo", vec!["hi".to_string()]);
    let h = extend_handler(&reg, &[run_full(&output(0, b"hi\n"))]);
    let oid = extend_oid(COL_OUTPUT1LINE, "greet");
    assert_eq!(h.get(&oid), Some(Value::OctetString(b"hi".to_vec())));
}

#[test]
fn extend_num_lines_counts_stdout() {
    let mut reg = ExecRegistry::new();
    reg.add(
        "two",
        "sh",
        vec!["-c".to_string(), "printf 'a\\nb\\n'".to_string()],
    );
    let cells = extend_cells(&reg, &[run_full(&output(0, b"a\nb\n"))]);
    let target = extend_oid(COL_NUM_LINES, "two").to_string();
    assert_eq!(find(&cells, &target), Some(Value::Integer(2)));
}

#[test]
fn commands_that_fail_report_a_code() {
    assert_eq!(run_full(&None), (127, String::new()));
    assert_eq!(
        run_full(&Some(ExecOutput {
            code: None,
            stdout: b"x \n".to_vec()
        })),
        (127, "x".to_string())
    );
    assert_eq!(run_full(&output(3, b"")), (3, String::new()));
    assert_eq!(output_of_text("a b \n\n"), "a b");
}

#[test]
fn outputs_that_are_no_text_are_read_lossily() {
    assert_eq!(
        ExecEntry::run(&output(0, b"a\xffb\nc\n")),
        (0, "a\u{fffd}b".to_string())
    );
}

fn integer_cmd() -> String {
    "sh -c \"echo 1.3.6.1.4.1.9999.1.0; echo integer; echo 42\"".to_string()
}

const INTEGER_OUT: &str = "1.3.6.1.4.1.9999.1.0\ninteger\n42\n";

#[test]
fn pass_get_returns_script_value() {
    let root: Oid = "1.3.6.1.4.1.9999".parse().unwrap();
    let handler = PassHandler::pass(root, &integer_cmd());
    let oid: Oid = "1.3.6.1.4.1.9999.1.0".parse().unwrap();
    match handler.get_request(&oid) {
        Some(PassRequest::Run { program, args }) => {
            assert_eq!(program, "sh");
            assert_eq!(
                args,
                vec![
                    "-c",
                    "echo 1.3.6.1.4.1.9999.1.0; echo integer; echo 42",
                    "-g",
                    ".1.3.6.1.4.1.9999.1.0"
                ]
            );
        }
        other => panic!("expected a run, got {other:?}"),
    }
    let value = PassHandler::get_answer(parse_pass_reply(INTEGER_OUT));
    assert_eq!(value, Some(Value::Integer(42)));
}

#[test]
fn pass_getnext_returns_successor() {
    let root: Oid = "1.3.6.1.4.1.9999".parse().unwrap();
    let handler = PassHandler::pass(root.clone(), &integer_cmd());
    let oid: Oid = "1.3.6.1.4.1.9999".parse().unwrap();
    match handler.get_next_request(&oid) {
        Some(PassRequest::Run { args, .. }) => {
            assert_eq!(args[2..], ["-n", ".1.3.6.1.4.1.9999"]);
        }
        other => panic!("expected a run, got {other:?}"),
    }
    let reading = handler
        .get_next_answer(parse_pass_reply(INTEGER_OUT))
        .expect("a successor");
    assert!(root.is_prefix_of(&reading.oid));
    assert_eq!(reading.value, Value::Integer(42));
    let outside = PassHandler::pass("1.3.6.1.4.1.1".parse().unwrap(), "x");
    assert!(outside
        .get_next_answer(parse_pass_reply(INTEGER_OUT))
        .is_none());
}

#[test]
fn pass_get_returns_none_for_missing_oid() {
    let root: Oid = "1.3.6.1.4.1.9999".parse().unwrap();
    let handler = PassHandler::pass(root, "sh -c \"echo NONE\"");
    let oid: Oid = "1.3.6.1.4.1.9999.9.9".parse().unwrap();
    assert!(handler.get_request(&oid).is_some());
    assert_eq!(PassHandler::get_answer(parse_pass_reply("NONE\n")), None);
}

#[test]
fn running_commands_are_sent_lines() {
    let root: Oid = "1.3.6.1.4.1.9999".parse().unwrap();
    let handler = PassHandler::pass_persist(root.clone(), "cmd");
    let line = |r: Option<PassRequest>| match r {
        Some(PassRequest::Send { line }) => line,
        other => panic!("expected a line, got {other:?}"),
    };
    assert_eq!(
        line(handler.get_request(&root)),
        "get\n.1.3.6.1.4.1.9999"
    );
    assert_eq!(
        line(handler.get_next_request(&root)),
        "getnext\n.1.3.6.1.4.1.9999"
    );
    assert_eq!(
        line(handler.set_request(&root, &Value::Integer(5))),
        "set\n.1.3.6.1.4.1.9999 integer 5"
    );
    assert!(PassHandler::pass(root.clone(), " ")
        .get_request(&root)
        .is_none());
}

#[test]
fn replies_are_read_line_by_line() {
    let mut r = PersistReader::new();
    assert!(!r.take_line("1.2.3\n"));
    assert!(!r.take_line("string\r\n"));
    assert!(r.take_line("a b\n"));
    let reply = r.finish().unwrap();
    assert_eq!(reply.oid.to_string(), ".1.2.3");
    assert_eq!(reply.type_token, "string");
    assert_eq!(reply.value, "a b");
    let mut r = PersistReader::new();
    assert!(r.take_line("\n"));
    assert!(r.finish().is_none());
    let mut r = PersistReader::new();
    assert!(!r.take_line("NONE\n"));
    assert!(r.finish().is_none());
}

#[test]
fn parse_pass_reply_handles_integer() {
    let reply = parse_pass_reply("1.2.3.4.5\ninteger\n7\n").unwrap();
    assert_eq!(reply.oid.to_string(), ".1.2.3.4.5");
    assert_eq!(reply.type_token, "integer");
    assert_eq!(reply.value, "7");
    let value = value_from_pass(&reply.type_token, &reply.value);
    assert_eq!(value, Value::Integer(7));
}

#[test]
fn parse_pass_reply_treats_none_as_missing() {
    assert!(parse_pass_reply("NONE\n").is_none());
    assert!(parse_pass_reply("\n").is_none());
}

#[test]
fn value_from_pass_maps_known_types() {
    assert_eq!(value_from_pass("integer", "5"), Value::Integer(5));
    assert_eq!(value_from_pass("counter", "5"), Value::Counter32(5));
    assert_eq!(value_from_pass("counter64", "5"), Value::Counter64(5));
    assert_eq!(value_from_pass("gauge", "5"), Value::Gauge32(5));
    assert_eq!(value_from_pass("timeticks", "5"), Value::TimeTicks(5));
    assert_eq!(
        value_from_pass("ipaddress", "10.0.0.1"),
        Value::IpAddress(Ipv4Addr::new(10, 0, 0, 1))
    );
    assert_eq!(
        value_from_pass("string", "hello"),
        Value::OctetString(b"hello".to_vec())
    );
    assert_eq!(
        value_from_pass("weirdtype", "x"),
        Value::OctetString(b"x".to_vec())
    );
}

#[test]
fn values_pass_there_and_back() {
    for v in [
        Value::Integer(-3),
        Value::Counter32(4),
        Value::Counter64(u64::MAX),
        Value::Gauge32(9),
        Value::TimeTicks(1),
        Value::IpAddress(Ipv4Addr::new(1, 2, 3, 4)),
        Value::OctetString(b"text".to_vec()),
        Value::Oid("1.3.6".parse().unwrap()),
    ] {
        let (t, x) = value_to_pass(&v);
        assert_eq!(value_from_pass(&t, &x), v);
    }
}

#[test]
fn parse_pass_directive_parses_oid_and_command() {
    let (oid, cmd) = parse_pass_directive("1.3.6.1.4.1.9999 /usr/local/bin/myscript").unwrap();
    assert_eq!(oid.to_string(), ".1.3.6.1.4.1.9999");
    assert_eq!(cmd, "/usr/local/bin/myscript");
    assert!(parse_pass_directive("1.3.6.1").is_none());
    assert!(parse_pass_directive("x /bin/y").is_none());
}

#[test]
fn commands_are_split_like_a_shell_does() {
    assert_eq!(
        split_command("a 'b c' \"d e\" f\\ g"),
        Some((
            "a".to_string(),
            vec!["b c".to_string(), "d e".to_string(), "f g".to_string()]
        ))
    );
    assert_eq!(split_command("  "), None);
}

fn load(text: &str, hundredths: i64) -> LoadAvg {
    LoadAvg {
        text: text.to_string(),
        hundredths,
    }
}

fn snap() -> Snapshot {
    Snapshot {
        mem_total: 16 * 1024 * 1024 * 1024,
        mem_available: 8 * 1024 * 1024 * 1024,
        mem_free: 4 * 1024 * 1024 * 1024,
        swap_total: 2 * 1024 * 1024 * 1024,
        swap_free: 1024 * 1024 * 1024,
        cpu_global_pct: 30,
        load_avg: LoadAverages {
            one: load("0.50", 50),
            five: load("1.25", 125),
            fifteen: load("2.00", 200),
        },
        disks: vec![DiskSample {
            mount: "/".to_string(),
            fs: "ext4".to_string(),
            total: 100 * 1024 * 1024 * 1024,
            available: 25 * 1024 * 1024 * 1024,
        }],
        ..Snapshot::default()
    }
}

fn base_cells() -> Vec<(Oid, Value)> {
    ucd_cells(
        &snap(),
        &ProcStat::default(),
        &UcdMibConfig::default(),
        &UcdReadings::none(),
    )
}

#[test]
fn memory_reports_real_and_swap() {
    let cells = base_cells();
    assert_eq!(
        find(&cells, ".1.3.6.1.4.1.2021.4.5.0"),
        Some(Value::Integer(16 * 1024 * 1024))
    );
    assert_eq!(
        find(&cells, ".1.3.6.1.4.1.2021.4.3.0"),
        Some(Value::Integer(2 * 1024 * 1024))
    );
}

#[test]
fn load_average_int_is_scaled() {
    let cells = base_cells();
    assert_eq!(
        find(&cells, ".1.3.6.1.4.1.2021.10.1.5.2"),
        Some(Value::Integer(125))
    );
    assert_eq!(
        find(&cells, ".1.3.6.1.4.1.2021.10.1.3.2"),
        Some(Value::OctetString(b"1.25".to_vec()))
    );
}

#[test]
fn disk_percent_is_computed() {
    let cells = base_cells();
    assert_eq!(
        find(&cells, ".1.3.6.1.4.1.2021.9.1.9.1"),
        Some(Value::Integer(75))
    );
}

#[test]
fn ss_cpu_idle_complements_busy() {
    let cells = base_cells();
    assert_eq!(
        find(&cells, ".1.3.6.1.4.1.2021.11.11.0"),
        Some(Value::Integer(70))
    );
}

#[test]
fn base_handler_serves_its_cells() {
    let h = ucd_handler(&snap(), &ProcStat::default());
    assert_eq!(
        h.get(&"1.3.6.1.4.1.2021.11.11.0".parse().unwrap()),
        Some(Value::Integer(70))
    );
}

#[test]
fn proc_stat_parses_cpu_and_context_lines() {
    let sample = "cpu  100 20 30 200 5 6 7 0 0 0\n\
                  intr 12345 1 2 3\n\
                  ctxt 99999\n\
                  page 11 22\n\
                  swap 33 44\n";
    let stat = parse_proc_stat_text(sample);
    assert_eq!(stat.cpu_jiffies, [100, 20, 30, 200, 5, 6, 7]);
    assert_eq!(stat.ctxt_total, 99999);
    assert_eq!(stat.intr_total, 12345);
    assert_eq!(stat.page, [11, 22]);
    assert_eq!(stat.swap, [33, 44]);
}

#[test]
fn ss_cpu_raw_columns_present_from_proc_stat_sample() {
    let stat = parse_proc_stat_text("cpu 100 20 30 200 5 6 7\nctxt 99999\n");
    let cells = ss_cpu_raw_cells(&stat);
    let user = find(&cells, ".1.3.6.1.4.1.2021.11.50.0");
    assert!(
        matches!(user, Some(Value::Counter32(_))),
        "ssCpuRawUser.0 should be a Counter32, got {user:?}"
    );
    assert_eq!(user, Some(Value::Counter32(100)));
    let ctxt = find(&cells, ".1.3.6.1.4.1.2021.11.61.0");
    assert!(
        matches!(ctxt, Some(Value::Counter32(_))),
        "ssRawContexts.0 should be a Counter32, got {ctxt:?}"
    );
    assert_eq!(ctxt, Some(Value::Counter32(99999)));
}

#[test]
fn version_tag_carries_crate_name() {
    let cells = version_cells();
    match find(&cells, ".1.3.6.1.4.1.2021.1.1.0") {
        Some(Value::OctetString(bytes)) => {
            let s = String::from_utf8(bytes).unwrap();
            assert!(s.starts_with("net-snmp-rs "), "got: {s}");
        }
        other => panic!("versionTag wrong shape: {other:?}"),
    }
}

#[test]
fn ext_table_runs_a_real_command() {
    let mut reg = ExecRegistry::new();
    reg.add("greeting", "echo", vec!["hello".to_string()]);
    let cells = ext_table_cells(&reg, &[ExecEntry::run(&output(0, b"hello\n"))]);
    assert_eq!(
        find(&cells, ".1.3.6.1.4.1.2021.8.1.5.1"),
        Some(Value::OctetString(b"hello".to_vec())),
        "extOutput should capture echo's first line"
    );
    assert_eq!(
        find(&cells, ".1.3.6.1.4.1.2021.8.1.4.1"),
        Some(Value::Integer(0))
    );
}

fn proc(pid: u32, name: &str) -> ProcSample {
    ProcSample {
        pid,
        name: name.into(),
        path: String::new(),
        mem_kb: 0,
        cpu_pct: 0,
        status: 1,
    }
}

#[test]
fn pr_table_counts_from_synthetic_process_list() {
    let mut s = snap();
    s.processes = vec![proc(1, "sshd"), proc(2, "sshd"), proc(3, "cron")];
    let mut reg = ProcCheckRegistry::new();
    reg.add("sshd", 1, 1);
    let cells = pr_table_cells(&s, &reg);
    assert_eq!(
        find(&cells, ".1.3.6.1.4.1.2021.2.1.5.1"),
        Some(Value::Integer(2))
    );
    assert_eq!(
        find(&cells, ".1.3.6.1.4.1.2021.2.1.6.1"),
        Some(Value::Integer(1))
    );
    assert_eq!(count_named(&s.processes, "cron"), 1);
}

#[test]
fn file_check_flags_missing_file() {
    let mut reg = FileCheckRegistry::new();
    reg.add("ghost", "/nonexistent/definitely/not/here", 0);
    let cells = file_cells(&reg, &[FileStat::Failed("not found".to_string())]);
    assert_eq!(
        find(&cells, ".1.3.6.1.4.1.2021.3.1.5.1"),
        Some(Value::Integer(1))
    );
    assert_eq!(
        find(&cells, ".1.3.6.1.4.1.2021.3.1.6.1"),
        Some(Value::OctetString(
            b"/nonexistent/definitely/not/here: not found".to_vec()
        ))
    );
}

#[test]
fn file_check_flags_large_file() {
    let mut reg = FileCheckRegistry::new();
    reg.add("big", "/b", 10);
    reg.add("ok", "/o", 10);
    let cells = file_cells(&reg, &[FileStat::Size(11), FileStat::Size(10)]);
    assert_eq!(
        find(&cells, ".1.3.6.1.4.1.2021.3.1.6.1"),
        Some(Value::OctetString(b"big size 11 > 10".to_vec()))
    );
    assert_eq!(
        find(&cells, ".1.3.6.1.4.1.2021.3.1.5.2"),
        Some(Value::Integer(0))
    );
}

#[test]
fn log_matches_are_counted() {
    let mut reg = LogMatchRegistry::new();
    reg.add("errors", "/var/log/x", 4, "err");
    reg.add("broken", "/var/log/y", 0, "err");
    let cells = log_match_cells(&reg, &[b"err err errerr".to_vec(), b"err\xff".to_vec()]);
    assert_eq!(
        find(&cells, ".1.3.6.1.4.1.2021.16.1.7.1"),
        Some(Value::Counter32(3))
    );
    assert_eq!(
        find(&cells, ".1.3.6.1.4.1.2021.16.1.7.2"),
        Some(Value::Counter32(0))
    );
    assert_eq!(count_occurrences("aaa", "aa"), 1);
    assert_eq!(count_occurrences("ab", ""), 3);
}

#[test]
fn nothing_is_counted_behind_the_end_of_a_log() {
    let mut reg = LogMatchRegistry::new();
    reg.add("beyond", "/var/log/x", 100, "ERR");
    reg.add("at end", "/var/log/x", 7, "ERR");
    let cells = log_match_cells(&reg, &[b"ERR ERR".to_vec(), b"ERR ERR".to_vec()]);
    for row in 1..3 {
        assert_eq!(
            find(&cells, &format!(".1.3.6.1.4.1.2021.16.1.7.{row}")),
            Some(Value::Counter32(0))
        );
    }
}

#[test]
fn parse_exec_directives_handles_comments_and_args() {
    let cfg = "# a comment\n\
               greet echo hello world\n\
               \n\
               uptime /usr/bin/uptime\n";
    let entries = parse_exec_directives(cfg);
    assert_eq!(entries.len(), 2);
    assert_eq!(entries[0].name, "greet");
    assert_eq!(entries[0].command, "echo");
    assert_eq!(entries[0].args, vec!["hello", "world"]);
    assert_eq!(entries[1].command, "/usr/bin/uptime");
    assert!(entries[1].args.is_empty());
}
