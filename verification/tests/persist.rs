use netsnmp_agent::any_handler::AnyHandler;
use netsnmp_agent::config::{parse_str, parse_words};
use netsnmp_agent::mibgroup::collector::Snapshot;
use netsnmp_agent::mibgroup::system::SystemFacts;
use netsnmp_agent::mibgroup::ucd::ProcStat;
use netsnmp_agent::mibgroup::{register_system_mibs_with_persistables, SystemMibConfig};
use netsnmp_agent::oid::Oid;
use netsnmp_agent::persist::{
    decode_value, default_persistent_dir, encode_value, engine_boots_file, load_engine_boots,
    quote_word, save_engine_boots, EngineBootsPersistable, KeptItem, Persistable, Persistence,
    ScalarPersistable, PERSIST_FILE,
};
use netsnmp_agent::pdu::{ErrorStatus, Pdu, PduType};
use netsnmp_agent::registry::Registry;
use netsnmp_agent::scalar::{FnHandler, ScalarHandler};
use netsnmp_agent::served::ServedScalar;
use netsnmp_agent::value::{Ipv4Addr, Value, VarBind};

#[test]
fn scalar_round_trip_through_file() {
    let root: Oid = "1.3.6.1.2.1.1.4".parse().unwrap();
    let mut handler =
        ScalarHandler::new(root.clone(), Value::OctetString(b"old".to_vec())).writable();
    handler.set_value(Value::OctetString(b"ops <ops@example.org>".to_vec()));

    let mut p1 = Persistence::new("/tmp");
    p1.register(ScalarPersistable::new("sysContact", handler));
    let text = p1.save();

    let dirs = parse_str(&text);
    assert_eq!(dirs.len(), 1);
    assert_eq!(dirs[0].token, "sysContact");

    let handler2 =
        ScalarHandler::new(root, Value::OctetString(b"default".to_vec())).writable();
    let mut p2 = Persistence::new("/tmp");
    p2.register(ScalarPersistable::new("sysContact", handler2));
    p2.load(&text);
    assert_eq!(
        p2.items()[0].handler().get_value(),
        Value::OctetString(b"ops <ops@example.org>".to_vec())
    );
}

#[test]
fn value_encode_decode_round_trips() {
    let cases = [
        Value::OctetString(b"plain".to_vec()),
        Value::OctetString(b"with spaces and <>".to_vec()),
        Value::OctetString(vec![0x00, 0xff, 0x10]),
        Value::Integer(-5),
        Value::Counter32(42),
        Value::Gauge32(7),
        Value::TimeTicks(123),
        Value::Counter64(u64::MAX),
        Value::Oid("1.3.6.1.2.1.1.5".parse().unwrap()),
        Value::IpAddress(Ipv4Addr::new(10, 0, 0, 1)),
        Value::Null,
    ];
    for v in cases {
        let (tag, enc) = encode_value(&v);
        let back = decode_value(tag, &enc).expect("decode");
        assert_eq!(v, back, "mismatch for tag {tag}: {enc}");
    }
}

#[test]
fn encoded_values_have_their_tags() {
    assert_eq!(
        encode_value(&Value::OctetString(b"plain".to_vec())),
        ("s", "plain".to_string())
    );
    assert_eq!(
        encode_value(&Value::OctetString(vec![0x00, 0xff, 0x10])),
        ("x", "00ff10".to_string())
    );
    assert_eq!(encode_value(&Value::Integer(-5)), ("i", "-5".to_string()));
    assert_eq!(
        encode_value(&Value::Opaque(vec![0x9f])),
        ("p", "9f".to_string())
    );
    assert_eq!(
        decode_value("p", "9f"),
        Some(Value::Opaque(vec![0x9f]))
    );
}

#[test]
fn unreadable_values_are_refused() {
    assert_eq!(decode_value("i", "five"), None);
    assert_eq!(decode_value("x", "0"), None);
    assert_eq!(decode_value("x", "zz"), None);
    assert_eq!(decode_value("?", "1"), None);
}

#[test]
fn quote_word_survives_parse_words() {
    for s in [
        "simple",
        "",
        "with space",
        "quote\"inside",
        "back\\slash",
        "tab here",
        "ops <ops@example.org>",
    ] {
        let quoted = quote_word(s);
        let parsed = parse_words(&format!("t {quoted}"));
        assert_eq!(parsed, vec!["t".to_string(), s.to_string()], "input: {s:?}");
    }
}

#[test]
fn engine_boots_round_trip() {
    let engine_id = vec![0x80u8, 0x00, 0x1f, 0x88, 0x04];
    assert_eq!(load_engine_boots(None), None);
    let (path, text) = save_engine_boots("/var/lib/snmp", &engine_id, 7);
    assert_eq!(path, "/var/lib/snmp/80001f8804.boots");
    assert_eq!(path, engine_boots_file("/var/lib/snmp", &engine_id));
    assert_eq!(load_engine_boots(Some(&text)), Some(7));
    assert_eq!(EngineBootsPersistable::load_and_bump(Some(&text), 1), 8);
}

#[test]
fn engine_boots_start_at_the_fallback() {
    assert_eq!(EngineBootsPersistable::load_and_bump(None, 1), 1);
    assert_eq!(EngineBootsPersistable::load_and_bump(Some("many"), 4), 4);
    assert_eq!(
        EngineBootsPersistable::load_and_bump(Some("4294967295\n"), 1),
        u32::MAX
    );
}

#[test]
fn engine_boots_persistable_snapshot_restore() {
    let eb = EngineBootsPersistable::new(vec![0x80, 0x01], 3);
    let dirs = eb.snapshot();
    assert_eq!(dirs.len(), 1);
    assert_eq!(dirs[0].token, "engineBoots");
    assert_eq!(dirs[0].arg(0).map(|s| s.as_str()), Some("3"));
    let mut eb2 = EngineBootsPersistable::new(vec![0x80, 0x01], 0);
    eb2.restore(&dirs);
    assert_eq!(eb2.get(), 3);
}

#[test]
fn engine_boots_can_be_set_through_the_handle() {
    let mut eb = EngineBootsPersistable::new(vec![0x80], 3);
    *eb.handle() += 1;
    assert_eq!(eb.get(), 4);
    eb.set(9);
    assert_eq!(eb.save_to("d"), ("d/80.boots".to_string(), "9\n".to_string()));
    assert_eq!(eb.engine_id(), &[0x80]);
}

#[test]
fn load_missing_file_is_ok() {
    let mut p: Persistence<EngineBootsPersistable> = Persistence::new("does-not-exist");
    p.register(EngineBootsPersistable::new(vec![1], 5));
    p.load("");
    assert_eq!(p.items()[0].get(), 5);
    assert_eq!(p.dir(), "does-not-exist");
    assert_eq!(PERSIST_FILE, "snmpd.persist");
}

#[test]
fn persistent_directory_comes_from_the_environment() {
    assert_eq!(default_persistent_dir(Some("/data")), "/data");
    assert_eq!(default_persistent_dir(Some("")), "/var/lib/snmp");
    assert_eq!(default_persistent_dir(None), "/var/lib/snmp");
}

#[test]
fn words_are_split_at_blanks_and_quotes() {
    assert_eq!(
        parse_words("a \"b c\" d"),
        vec!["a".to_string(), "b c".to_string(), "d".to_string()]
    );
    assert!(parse_words("   ").is_empty());
}

#[test]
fn lines_become_directives() {
    let dirs = parse_str("# note\n[snmpd]\nrocommunity public\n");
    assert_eq!(dirs.len(), 1);
    assert_eq!(dirs[0].token, "rocommunity");
    assert_eq!(dirs[0].section.as_deref(), Some("snmpd"));
    assert_eq!(dirs[0].arg(0).map(|s| s.as_str()), Some("public"));
    assert!(dirs[0].arg(1).is_none());
    assert!(dirs[0].is("ROCOMMUNITY"));
}

fn scalar(key: &str, value: Value) -> ScalarPersistable {
    let handler = ScalarHandler::new("1.3".parse().unwrap(), value).writable();
    ScalarPersistable::new(key, handler)
}

#[test]
fn items_with_one_key_replace_each_other() {
    let mut p = Persistence::new("d");
    p.register(scalar("a", Value::Integer(1)));
    p.register(scalar("b", Value::Integer(2)));
    p.register(scalar("a", Value::Integer(3)));
    assert_eq!(p.items().len(), 2);
    assert_eq!(p.save(), "a i 3\nb i 2\n");
}

#[test]
fn every_kept_value_comes_back_after_a_restart() {
    let values = [
        Value::OctetString(b"a \"b\" \\ c".to_vec()),
        Value::OctetString(b"two\nlines".to_vec()),
        Value::OctetString(Vec::new()),
        Value::Integer(i64::MIN),
        Value::Counter64(u64::MAX),
        Value::Oid("1.3.6.1".parse().unwrap()),
        Value::Oid(Oid::new(Vec::new())),
        Value::Opaque(vec![0, 1, 255]),
        Value::Opaque(Vec::new()),
    ];
    let mut saved = Persistence::new("d");
    for (i, v) in values.iter().enumerate() {
        saved.register(scalar(&format!("k{i}"), v.clone()));
    }
    let text = saved.save();
    let mut fresh = Persistence::new("d");
    for i in 0..values.len() {
        fresh.register(scalar(&format!("k{i}"), Value::Null));
    }
    fresh.load(&text);
    for (item, v) in fresh.items().iter().zip(&values) {
        assert_eq!(&item.handler().get_value(), v);
    }
}

type Handlers = Registry<AnyHandler<FnHandler>>;

fn started() -> (Handlers, Persistence<KeptItem>, Vec<ServedScalar>) {
    let facts = SystemFacts {
        os_name: None,
        os_version: None,
        long_os_version: None,
        kernel_version: None,
        host_name: Some("box".to_string()),
        cpu_arch: String::new(),
    };
    let mut registry: Handlers = Registry::new();
    let config = SystemMibConfig::default();
    let kept = register_system_mibs_with_persistables(
        &mut registry,
        &config,
        &facts,
        &Snapshot::default(),
        &ProcStat::default(),
    );
    let roots: Vec<String> = kept.iter().map(|h| h.root().to_string()).collect();
    assert_eq!(
        roots,
        vec![".1.3.6.1.2.1.1.4", ".1.3.6.1.2.1.1.5", ".1.3.6.1.2.1.1.6"]
    );
    assert_eq!(
        kept[0].get_value(&registry),
        Some(Value::OctetString(config.contact.into_bytes()))
    );
    assert_eq!(
        kept[2].get_value(&registry),
        Some(Value::OctetString(config.location.into_bytes()))
    );
    let mut items = Persistence::new("d");
    for (key, scalar) in ["sysContact", "sysName", "sysLocation"].iter().zip(&kept) {
        let item = ScalarPersistable::of_served(key, scalar, &registry).unwrap();
        items.register(KeptItem::Scalar(item));
    }
    (registry, items, kept)
}

#[test]
fn a_set_contact_survives_a_restart() {
    let contact: Oid = "1.3.6.1.2.1.1.4.0".parse().unwrap();
    let ops = Value::OctetString(b"ops <ops@example.org>".to_vec());

    let (mut registry, mut items, _) = started();
    items.register(KeptItem::Boots(EngineBootsPersistable::new(vec![1], 6)));
    let mut set = Pdu::new(PduType::SetRequest, 1);
    set.variables.push(VarBind::new(contact.clone(), ops.clone()));
    assert_eq!(registry.process(&set).status(), ErrorStatus::NoError);
    items.keep_from(&registry);
    let text = items.save();
    assert_eq!(
        text,
        "sysContact s \"ops <ops@example.org>\"\nsysName s box\nsysLocation s Unknown\n\
         engineBoots 6\n"
    );

    let (mut registry, mut items, _) = started();
    items.register(KeptItem::Boots(EngineBootsPersistable::new(vec![1], 0)));
    assert_ne!(registry.get(&contact), ops);
    items.load(&text);
    items.serve_in(&mut registry);
    assert_eq!(registry.get(&contact), ops);
    assert_eq!(
        registry.get(&"1.3.6.1.2.1.1.6.0".parse().unwrap()),
        Value::OctetString(b"Unknown".to_vec())
    );
    assert!(matches!(&items.items()[3], KeptItem::Boots(b) if b.get() == 6));
    assert_eq!(registry.process(&set).status(), ErrorStatus::NoError);
}

#[test]
fn items_that_are_not_served_stay_as_they_are() {
    let registry: Handlers = Registry::new();
    let mut items = Persistence::new("d");
    items.register(KeptItem::Scalar(scalar("a", Value::Integer(1))));
    items.keep_from(&registry);
    assert_eq!(items.save(), "a i 1\n");
    let mut registry = registry;
    items.serve_in(&mut registry);
    assert_eq!(registry.len(), 0);
}

#[test]
fn persistables_are_the_scalars_that_are_served() {
    let (mut registry, mut items, kept) = started();
    let contact: Oid = "1.3.6.1.2.1.1.4.0".parse().unwrap();
    let name: Oid = "1.3.6.1.2.1.1.5.0".parse().unwrap();
    let ops = Value::OctetString(b"ops".to_vec());
    assert!(kept[0].set_value(&mut registry, ops.clone()));
    assert_eq!(registry.get(&contact), ops);
    assert_eq!(registry.get(&name), Value::OctetString(b"box".to_vec()));

    let mut set = Pdu::new(PduType::SetRequest, 1);
    let noc = Value::OctetString(b"noc".to_vec());
    set.variables.push(VarBind::new(contact.clone(), noc.clone()));
    assert_eq!(registry.process(&set).status(), ErrorStatus::NoError);
    assert_eq!(kept[0].get_value(&registry), Some(noc));

    kept[0].handler_mut(&mut registry).unwrap().set_value(ops.clone());
    assert_eq!(kept[0].handler(&registry).unwrap().get_value(), ops);
    items.keep_from(&registry);
    assert!(items.save().starts_with("sysContact s ops\n"));
}

#[test]
fn a_scalar_that_is_not_served_has_no_value() {
    let (mut registry, _, _) = started();
    let absent = ServedScalar::new("1.3.6.1.2.1.1.8".parse().unwrap());
    assert_eq!(absent.get_value(&registry), None);
    assert!(!absent.set_value(&mut registry, Value::Integer(1)));
    assert!(ScalarPersistable::of_served("a", &absent, &registry).is_none());
    let table = ServedScalar::new("1.3.6.1.2.1.1.1".parse().unwrap());
    assert!(table.handler_mut(&mut registry).is_none());
}
