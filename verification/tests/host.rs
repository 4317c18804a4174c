use netsnmp_agent::handler::MibHandler;
use netsnmp_agent::hardware::{SensorReading, SensorReadings};
use netsnmp_agent::mibgroup::collector::{
    gather_disks, gather_interfaces, gather_processes, kilobytes, mac_bytes, map_status,
    refresh_due, CpuSample, DiskSample, NetSample, ProcSample, ProcessStatus, Snapshot,
};
use netsnmp_agent::mibgroup::host::{
    alloc_units_for, clamp_i32, classify_disk_media, date_and_time, disk_storage_rows,
    fs_type_oid_for, hr_device_cells, hr_disk_storage_handler, hr_network_cells,
    hr_partition_handler, hr_printer_handler, hr_sw_installed_handler, hr_swrun_perf_handler,
    hr_system_cells, hr_system_handler, partition_rows, physical_disks, storage_rows,
    storage_table_cells, BlockDevice, HrSWRunHandler, LocalTime, StorageRow,
};
use netsnmp_agent::mibgroup::interfaces::{
    if_number_handler, if_table_handler, if_xtable_cells, interface_cells, parse_mac, IfStat,
    Interface,
};
use netsnmp_agent::mibgroup::lm_sensors::{lm_sensors_handler, temp_sensor_cells};
use netsnmp_agent::oid::Oid;
use netsnmp_agent::pdu::ErrorStatus;
use netsnmp_agent::value::Value;

fn find(cells: &[(Oid, Value)], name: &str) -> Option<Value> {
    cells
        .iter()
        .find(|(o, _)| o.to_string() == name)
        .map(|(_, v)| v.clone())
}

fn noon() -> LocalTime {
    LocalTime {
        year: 2024,
        month: 2,
        day: 29,
        hour: 12,
        minute: 34,
        second: 56,
        nanosecond: 789_000_000,
        offset_secs: -12_600,
    }
}

fn ram_swap_rows() -> Vec<StorageRow> {
    vec![
        StorageRow {
            index: 1,
            type_oid: "1.3.6.1.2.1.25.2.1.2".parse().unwrap(),
            descr: "Physical memory".to_string(),
            alloc_units: 1024,
            size: 16384000,
            used: 8192000,
        },
        StorageRow {
            index: 3,
            type_oid: "1.3.6.1.2.1.25.2.1.3".parse().unwrap(),
            descr: "Swap space".to_string(),
            alloc_units: 1024,
            size: 2048000,
            used: 1024000,
        },
    ]
}

#[test]
fn builds_storage_table_cells() {
    let cells = storage_table_cells(&ram_swap_rows());
    assert_eq!(
        find(&cells, ".1.3.6.1.2.1.25.2.3.1.5.1"),
        Some(Value::Integer(16384000))
    );
    assert_eq!(
        find(&cells, ".1.3.6.1.2.1.25.2.3.1.6.1"),
        Some(Value::Integer(8192000))
    );
    assert_eq!(
        find(&cells, ".1.3.6.1.2.1.25.2.3.1.2.3"),
        Some(Value::Oid("1.3.6.1.2.1.25.2.1.3".parse().unwrap()))
    );
}

#[test]
fn storage_rows_include_disks() {
    let snap = Snapshot {
        mem_total: 16 * 1024 * 1024 * 1024,
        mem_used: 8 * 1024 * 1024 * 1024,
        swap_total: 2 * 1024 * 1024 * 1024,
        swap_used: 1024 * 1024 * 1024,
        disks: vec![DiskSample {
            mount: "/".to_string(),
            fs: "ext4".to_string(),
            total: 500 * 1024 * 1024 * 1024,
            available: 100 * 1024 * 1024 * 1024,
        }],
        ..Snapshot::default()
    };
    let rows = storage_rows(&snap);
    assert_eq!(
        rows.iter().map(|r| r.index).collect::<Vec<_>>(),
        vec![1, 3, 4]
    );
    let disk = rows.iter().find(|r| r.index == 4).unwrap();
    assert_eq!(disk.descr, "/ (ext4)");
    assert!(disk.size > 0 && disk.alloc_units >= 4096);
    assert_eq!(disk.size * disk.alloc_units, 500 * 1024 * 1024 * 1024);
    assert_eq!(disk.used * disk.alloc_units, 400 * 1024 * 1024 * 1024);
}

#[test]
fn alloc_units_keep_size_in_i32() {
    let total = 100u64 * 1024 * 1024 * 1024 * 1024;
    let units = alloc_units_for(total) as u64;
    assert!(total / units <= i32::MAX as u64);
}

#[test]
fn alloc_units_are_the_least() {
    assert_eq!(alloc_units_for(0), 4096);
    assert_eq!(alloc_units_for(4096 * (1 << 31) - 1), 4096);
    assert_eq!(alloc_units_for(4096 * (1 << 31)), 8192);
    assert!(u64::MAX / alloc_units_for(u64::MAX) as u64 <= i32::MAX as u64);
    assert_eq!(alloc_units_for(u64::MAX), 1 << 33);
    assert!((alloc_units_for(u64::MAX / 3) as u64).is_power_of_two());
}

#[test]
fn system_cells_report_uptime_and_processes() {
    let snap = Snapshot {
        uptime_secs: 100,
        num_processes: 42,
        ..Snapshot::default()
    };
    let cells = hr_system_cells(&snap, &noon());
    assert_eq!(
        find(&cells, ".1.3.6.1.2.1.25.1.1.0"),
        Some(Value::TimeTicks(10000))
    );
    assert_eq!(
        find(&cells, ".1.3.6.1.2.1.25.1.6.0"),
        Some(Value::Gauge32(42))
    );
}

#[test]
fn date_and_time_is_encoded() {
    assert_eq!(
        date_and_time(&noon()),
        vec![7, 232, 2, 29, 12, 34, 56, 7, b'-', 3, 30]
    );
    let mut t = noon();
    t.offset_secs = 19_800;
    assert_eq!(date_and_time(&t)[8..], [b'+', 5, 30]);
    t.offset_secs = -59;
    assert_eq!(date_and_time(&t)[8..], [b'+', 0, 0]);
    t.year = -1;
    assert_eq!(date_and_time(&t)[..2], [255, 255]);
}

#[test]
fn system_handler_reports_the_current_date() {
    let handler = hr_system_handler(&Snapshot::default());
    let oid: Oid = "1.3.6.1.2.1.25.1.2.0".parse().unwrap();
    match handler.get(&oid) {
        Some(Value::OctetString(b)) => {
            assert_eq!(b.len(), 11);
            let year = b[0] as u32 * 256 + b[1] as u32;
            assert!(year >= 1970);
            assert!((1..=12).contains(&b[2]));
            assert!(b[8] == b'+' || b[8] == b'-');
        }
        other => panic!("no date: {other:?}"),
    }
}

#[test]
fn uptime_is_capped() {
    let snap = Snapshot {
        uptime_secs: u64::MAX,
        num_users: -3,
        ..Snapshot::default()
    };
    let cells = hr_system_cells(&snap, &noon());
    assert_eq!(
        find(&cells, ".1.3.6.1.2.1.25.1.1.0"),
        Some(Value::TimeTicks(u32::MAX))
    );
    assert_eq!(find(&cells, ".1.3.6.1.2.1.25.1.5.0"), Some(Value::Gauge32(0)));
    assert_eq!(clamp_i32(-1), 0);
    assert_eq!(clamp_i32(i64::MAX), i32::MAX as i64);
}

#[test]
fn fs_type_oid_for_maps_common_filesystems() {
    assert_eq!(fs_type_oid_for("ext4").to_string(), ".1.3.6.1.2.1.25.3.9.10");
    assert_eq!(fs_type_oid_for("xfs").to_string(), ".1.3.6.1.2.1.25.3.9.14");
    assert_eq!(fs_type_oid_for("ntfs").to_string(), ".1.3.6.1.2.1.25.3.9.7");
    assert_eq!(fs_type_oid_for("vfat").to_string(), ".1.3.6.1.2.1.25.3.9.6");
    assert_eq!(fs_type_oid_for("btrfs").to_string(), ".1.3.6.1.2.1.25.3.9.1");
    assert_eq!(fs_type_oid_for("").to_string(), ".1.3.6.1.2.1.25.3.9.2");
}

#[test]
fn hr_device_cells_map_fs_type_for_real_filesystems() {
    let snap = Snapshot {
        disks: vec![DiskSample {
            mount: "/".to_string(),
            fs: "ext4".to_string(),
            total: 100 * 1024 * 1024 * 1024,
            available: 50 * 1024 * 1024 * 1024,
        }],
        cpus: vec![CpuSample {
            name: "cpu0".to_string(),
            usage_pct: 10,
            freq_mhz: 2400,
        }],
        ..Snapshot::default()
    };
    let cells = hr_device_cells(&snap);
    assert_eq!(
        find(&cells, ".1.3.6.1.2.1.25.3.8.1.4.1"),
        Some(Value::Oid("1.3.6.1.2.1.25.3.9.10".parse().unwrap()))
    );
    assert_eq!(
        find(&cells, ".1.3.6.1.2.1.25.3.8.1.8.1"),
        Some(Value::OctetString(vec![2]))
    );
    assert_eq!(
        find(&cells, ".1.3.6.1.2.1.25.3.8.1.9.1"),
        Some(Value::OctetString(vec![2]))
    );
    assert_eq!(
        find(&cells, ".1.3.6.1.2.1.25.3.2.1.3.1"),
        Some(Value::OctetString(b"cpu0 @ 2400 MHz".to_vec()))
    );
    assert_eq!(
        find(&cells, ".1.3.6.1.2.1.25.3.2.1.3.2"),
        Some(Value::OctetString(b"/".to_vec()))
    );
    assert_eq!(
        find(&cells, ".1.3.6.1.2.1.25.3.8.1.7.1"),
        Some(Value::Integer(4))
    );
    assert!(storage_rows(&snap).iter().any(|r| r.index == 4));
}

#[test]
fn hr_printer_table_is_empty() {
    let handler = hr_printer_handler();
    let root: Oid = "1.3.6.1.2.1.25.3.5".parse().unwrap();
    assert!(handler.get_next(&root).is_none());
}

#[test]
fn hr_sw_installed_table_is_empty() {
    let handler = hr_sw_installed_handler();
    let root: Oid = "1.3.6.1.2.1.25.6.3".parse().unwrap();
    assert!(handler.get_next(&root).is_none());
}

fn sample_ifaces() -> Vec<Interface> {
    vec![
        Interface {
            index: 1,
            if_type: 24,
            mtu: 65536,
            speed_bps: 0,
            phys_address: vec![],
            admin_up: true,
            oper_up: true,
            stat: IfStat {
                name: "lo".into(),
                rx_bytes: 100,
                rx_packets: 2,
                ..Default::default()
            },
        },
        Interface {
            index: 2,
            if_type: 6,
            mtu: 1500,
            speed_bps: 1_000_000_000,
            phys_address: vec![0, 1, 2, 3, 4, 5],
            admin_up: true,
            oper_up: false,
            stat: IfStat {
                name: "eth0".into(),
                tx_bytes: 50,
                ..Default::default()
            },
        },
    ]
}

#[test]
fn hr_network_table_maps_ifindex() {
    let snap = Snapshot {
        interfaces: vec![
            Interface {
                index: 1,
                if_type: 24,
                mtu: 65536,
                speed_bps: 0,
                phys_address: vec![],
                admin_up: true,
                oper_up: true,
                stat: IfStat {
                    name: "lo".into(),
                    ..Default::default()
                },
            },
            Interface {
                index: 2,
                if_type: 6,
                mtu: 1500,
                speed_bps: 0,
                phys_address: vec![],
                admin_up: true,
                oper_up: true,
                stat: IfStat {
                    name: "eth0".into(),
                    ..Default::default()
                },
            },
        ],
        ..Snapshot::default()
    };
    let cells = hr_network_cells(&snap);
    assert_eq!(
        find(&cells, ".1.3.6.1.2.1.25.3.4.1.1.1.1"),
        Some(Value::Integer(1))
    );
    assert_eq!(
        find(&cells, ".1.3.6.1.2.1.25.3.4.1.1.1.2"),
        Some(Value::Integer(2))
    );
}

fn process(pid: u32) -> ProcSample {
    ProcSample {
        pid,
        name: "init".to_string(),
        path: "/sbin/init".to_string(),
        mem_kb: 7,
        cpu_pct: 3,
        status: 1,
    }
}

fn one_process() -> Snapshot {
    Snapshot {
        processes: vec![process(1)],
        ..Snapshot::default()
    }
}

#[test]
fn hrswrun_handler_rejects_non_status_columns() {
    let mut handler = HrSWRunHandler::new(&one_process());
    let name_oid: Oid = "1.3.6.1.2.1.25.4.2.1.2.1".parse().unwrap();
    let err = handler
        .prepare_set(&name_oid, &Value::OctetString(b"x".to_vec()))
        .unwrap_err();
    assert_eq!(err, ErrorStatus::NotWritable);
}

#[test]
fn hrswrun_handler_rejects_out_of_range_status() {
    let mut handler = HrSWRunHandler::new(&one_process());
    let status_oid: Oid = ".1.3.6.1.2.1.25.4.2.1.7.1".parse().unwrap();
    assert_eq!(
        handler.prepare_set(&status_oid, &Value::Integer(5)),
        Err(ErrorStatus::WrongValue)
    );
    let absent: Oid = ".1.3.6.1.2.1.25.4.2.1.7.9".parse().unwrap();
    assert_eq!(
        handler.prepare_set(&absent, &Value::Integer(5)),
        Err(ErrorStatus::NoCreation)
    );
    assert_eq!(
        handler.prepare_set(&status_oid, &Value::Gauge32(1)),
        Err(ErrorStatus::WrongType)
    );
    assert_eq!(handler.prepare_set(&status_oid, &Value::Integer(4)), Ok(()));
}

#[test]
fn hrswrun_handler_set_invalid_commits_and_signals_child() {
    let mut handler = HrSWRunHandler::new(&Snapshot::default());
    let status_oid: Oid = ".1.3.6.1.2.1.25.4.2.1.7.4711".parse().unwrap();
    handler
        .commit_set(&status_oid, &Value::Integer(3))
        .expect("commit of another status succeeds");
    assert!(handler.signals().is_empty());
    handler
        .commit_set(&status_oid, &Value::Integer(4))
        .expect("commit invalid succeeds");
    assert_eq!(handler.signals(), &[4711]);
}

#[test]
fn performance_table_is_clamped() {
    let mut p = process(5);
    p.cpu_pct = -1;
    let snap = Snapshot {
        processes: vec![p],
        ..Snapshot::default()
    };
    let h = hr_swrun_perf_handler(&snap);
    assert_eq!(
        h.get(&"1.3.6.1.2.1.25.5.1.1.1.5".parse().unwrap()),
        Some(Value::Integer(0))
    );
    assert_eq!(
        h.get(&"1.3.6.1.2.1.25.5.1.1.2.5".parse().unwrap()),
        Some(Value::Integer(7))
    );
}

fn device(name: &str) -> BlockDevice {
    BlockDevice {
        name: name.to_string(),
        removable: Some("0\n".to_string()),
        read_only: Some("1\n".to_string()),
        sectors: Some("4\n".to_string()),
    }
}

#[test]
fn disks_are_filtered_sorted_and_described() {
    let disks = physical_disks(vec![device("sdb"), device("loop0"), device("ram1"), device("sda")]);
    assert_eq!(disks.len(), 2);
    assert_eq!(disks[0].name, "sda");
    let rows = disk_storage_rows(&disks);
    assert_eq!(rows[1].index, 2);
    assert_eq!(rows[0].access, 2);
    assert_eq!(rows[0].removable, 2);
    assert_eq!(rows[0].media, 6);
    assert_eq!(rows[0].capacity, 2048);
    let handler = hr_disk_storage_handler(&disks);
    assert_eq!(
        handler.get(&"1.3.6.1.2.1.25.3.6.1.1.5.1".parse().unwrap()),
        Some(Value::Integer(2048))
    );
    let mut huge = device("sda");
    huge.sectors = Some(u64::MAX.to_string());
    huge.read_only = None;
    let rows = disk_storage_rows(&[huge]);
    assert_eq!(rows[0].capacity, i32::MAX as i64);
    assert_eq!(rows[0].access, 1);
}

#[test]
fn media_are_told_by_name() {
    assert_eq!(classify_disk_media("nvme0n1"), 6);
    assert_eq!(classify_disk_media("sr0"), 11);
    assert_eq!(classify_disk_media("fd0"), 3);
    assert_eq!(classify_disk_media("md0"), 1);
}

#[test]
fn partitions_belong_to_the_longest_disk_name() {
    let disks = physical_disks(vec![device("nvme0n1"), device("nvme0n10")]);
    let text = "major minor  #blocks  name\n\n\
                259 0 100 nvme0n1\n\
                259 1 40 nvme0n1p1\n\
                259 2 60 nvme0n10p1\n\
                259 3 x nvme0n1p2\n\
                259 4 50 nvme0n1p3\n\
                8 0 5 sda1\n";
    let rows = partition_rows(text, &disks);
    let got: Vec<(u32, u32, &str, i64)> = rows
        .iter()
        .map(|r| (r.parent, r.index, r.label.as_str(), r.size))
        .collect();
    assert_eq!(
        got,
        vec![
            (1, 1, "nvme0n1p1", 40),
            (2, 1, "nvme0n10p1", 60),
            (1, 2, "nvme0n1p3", 50),
        ]
    );
    assert_eq!(rows[2].id, b"nvme0n12".to_vec());
    let handler = hr_partition_handler(text, &disks);
    assert_eq!(
        handler.get(&"1.3.6.1.2.1.25.3.7.1.1.2.513".parse().unwrap()),
        Some(Value::OctetString(b"nvme0n10p1".to_vec()))
    );
}

#[test]
fn parses_mac() {
    assert_eq!(
        parse_mac("aa:bb:cc:dd:ee:ff"),
        vec![0xaa, 0xbb, 0xcc, 0xdd, 0xee, 0xff]
    );
    assert_eq!(parse_mac("00:00:00:00:00:00"), vec![0, 0, 0, 0, 0, 0]);
}

#[test]
fn bad_parts_of_a_mac_are_left_out() {
    assert_eq!(parse_mac(" aa:zz:bb "), vec![0xaa, 0xbb]);
    assert!(mac_bytes("aa:zz:bb").is_empty());
    assert_eq!(mac_bytes("0a:1"), vec![10, 1]);
}

#[test]
fn builds_ordered_table_cells() {
    let cells = interface_cells(&sample_ifaces());
    assert_eq!(
        find(&cells, ".1.3.6.1.2.1.2.2.1.2.1"),
        Some(Value::OctetString(b"lo".to_vec()))
    );
    assert_eq!(
        find(&cells, ".1.3.6.1.2.1.2.2.1.8.2"),
        Some(Value::Integer(2))
    );
    let mut sorted = cells.clone();
    sorted.sort_by(|a, b| a.0.cmp(&b.0));
    assert_eq!(cells, sorted);
}

#[test]
fn builds_ifx_high_capacity_counters() {
    let cells = if_xtable_cells(&sample_ifaces());
    assert_eq!(
        find(&cells, ".1.3.6.1.2.1.31.1.1.1.1.1"),
        Some(Value::OctetString(b"lo".to_vec()))
    );
    assert_eq!(
        find(&cells, ".1.3.6.1.2.1.31.1.1.1.6.1"),
        Some(Value::Counter64(100))
    );
    assert_eq!(
        find(&cells, ".1.3.6.1.2.1.31.1.1.1.15.2"),
        Some(Value::Gauge32(1000))
    );
}

#[test]
fn interface_handlers_serve_number_and_table() {
    let fs = sample_ifaces();
    assert_eq!(
        if_number_handler(&fs).get(&"1.3.6.1.2.1.2.1.0".parse().unwrap()),
        Some(Value::Integer(2))
    );
    assert_eq!(
        if_table_handler(&fs).get(&"1.3.6.1.2.1.2.2.1.10.1".parse().unwrap()),
        Some(Value::Counter32(100))
    );
}

#[test]
fn processes_are_sorted_by_pid() {
    let got = gather_processes(vec![process(9), process(2), process(5)]);
    assert_eq!(got.iter().map(|p| p.pid).collect::<Vec<_>>(), vec![2, 5, 9]);
}

fn disk(mount: &str, total: u64) -> DiskSample {
    DiskSample {
        mount: mount.to_string(),
        fs: String::new(),
        total,
        available: 0,
    }
}

#[test]
fn disks_are_kept_once_per_mount() {
    let got = gather_disks(vec![disk("/var", 1), disk("/", 2), disk("/var", 3)]);
    let seen: Vec<(&str, u64)> = got.iter().map(|d| (d.mount.as_str(), d.total)).collect();
    assert_eq!(seen, vec![("/", 2), ("/var", 1)]);
}

fn net(name: &str) -> NetSample {
    NetSample {
        name: name.to_string(),
        mac: "01:02:03:04:05:06".to_string(),
        mtu: 1500,
        rx_bytes: 1,
        rx_packets: 2,
        rx_errs: 3,
        tx_bytes: 4,
        tx_packets: 5,
        tx_errs: 6,
    }
}

#[test]
fn interfaces_are_numbered_by_name() {
    let got = gather_interfaces(vec![net("lo"), net("eth0")]);
    assert_eq!(got[0].stat.name, "eth0");
    assert_eq!((got[0].index, got[0].if_type), (1, 6));
    assert_eq!((got[1].index, got[1].if_type), (2, 24));
    assert_eq!(got[0].phys_address, vec![1, 2, 3, 4, 5, 6]);
    assert_eq!(got[0].stat.tx_errs, 6);
}

#[test]
fn process_states_are_mapped() {
    assert_eq!(map_status(ProcessStatus::Run), 1);
    assert_eq!(map_status(ProcessStatus::Sleep), 2);
    assert_eq!(map_status(ProcessStatus::Unknown), 2);
    assert_eq!(map_status(ProcessStatus::Stop), 3);
    assert_eq!(map_status(ProcessStatus::Zombie), 4);
    assert_eq!(kilobytes(2047), 1);
}

#[test]
fn samples_are_refreshed_after_an_interval() {
    assert!(refresh_due(None));
    assert!(!refresh_due(Some(1499)));
    assert!(refresh_due(Some(1500)));
}

fn sample_readings() -> Vec<SensorReading> {
    vec![
        SensorReading {
            name: "coretemp:Core 0".to_string(),
            value: 45,
            unit: "C".to_string(),
        },
        SensorReading {
            name: "coretemp:Core 1".to_string(),
            value: -5,
            unit: "C".to_string(),
        },
    ]
}

#[test]
fn temp_table_cells_layout() {
    let cells = temp_sensor_cells(&sample_readings());
    assert_eq!(
        find(&cells, ".1.3.6.1.4.1.2021.13.16.2.1.1.1"),
        Some(Value::Integer(1))
    );
    assert_eq!(
        find(&cells, ".1.3.6.1.4.1.2021.13.16.2.1.2.1"),
        Some(Value::OctetString(b"coretemp:Core 0".to_vec()))
    );
    assert_eq!(
        find(&cells, ".1.3.6.1.4.1.2021.13.16.2.1.3.2"),
        Some(Value::Integer(-5))
    );
    assert_eq!(
        find(&cells, ".1.3.6.1.4.1.2021.13.16.2.1.4.1"),
        Some(Value::Integer(0))
    );
}

#[test]
fn handler_serves_all_three_tables() {
    let access = SensorReadings {
        temps: sample_readings(),
        fans: vec![SensorReading {
            name: "CPU_FAN".to_string(),
            value: 2400,
            unit: "RPM".to_string(),
        }],
        voltages: vec![SensorReading {
            name: "in0".to_string(),
            value: 12,
            unit: "V".to_string(),
        }],
    };
    let handler = lm_sensors_handler(&access);
    let temp_dev1: Oid = ".1.3.6.1.4.1.2021.13.16.2.1.2.1".parse().unwrap();
    assert_eq!(
        handler.get(&temp_dev1),
        Some(Value::OctetString(b"coretemp:Core 0".to_vec()))
    );
    let fan_val1: Oid = ".1.3.6.1.4.1.2021.13.16.3.1.3.1".parse().unwrap();
    assert_eq!(handler.get(&fan_val1), Some(Value::Integer(2400)));
    let volt_val1: Oid = ".1.3.6.1.4.1.2021.13.16.4.1.3.1".parse().unwrap();
    assert_eq!(handler.get(&volt_val1), Some(Value::Integer(12)));
}

#[test]
fn handler_empty_when_no_sensors() {
    let handler = lm_sensors_handler(&SensorReadings::default());
    let root: Oid = ".1.3.6.1.4.1.2021.13.16.2".parse().unwrap();
    assert!(handler.get_next(&root).is_none());
}

#[test]
fn handler_getnext_walks_in_order() {
    let access = SensorReadings {
        temps: sample_readings(),
        ..Default::default()
    };
    let handler = lm_sensors_handler(&access);
    let start: Oid = ".1.3.6.1.4.1.2021.13.16.2.1.1".parse().unwrap();
    let first = handler.get_next(&start).expect("first cell");
    assert_eq!(first.oid.to_string(), ".1.3.6.1.4.1.2021.13.16.2.1.1.1");
    assert_eq!(first.value, Value::Integer(1));
}
