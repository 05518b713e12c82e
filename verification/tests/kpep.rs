//! Events, databases and lookups.

use apmc::document::Plist;
use apmc::kpep::{KpepDatabase, KpepError, KpepEvent};
use apmc::load::{find_database_path, read_cpu_info, CpuId, CpuLoad, CpuLoadEvent, DatabaseFile};
use plist::{Dictionary, Value};

fn make_fixed_event(name: &str, fixed_counter: u64) -> KpepEvent {
    KpepEvent {
        name: name.to_string(),
        description: "fixed counter".to_string(),
        number: None,
        counters_mask: None,
        pc_capture_counters_mask: None,
        fixed_counter: Some(fixed_counter),
        fallback: None,
    }
}

fn make_config_event(name: &str, number: u64) -> KpepEvent {
    KpepEvent {
        name: name.to_string(),
        description: "configurable event".to_string(),
        number: Some(number),
        counters_mask: None,
        pc_capture_counters_mask: None,
        fixed_counter: None,
        fallback: None,
    }
}

#[test]
fn fixed_event_classification() {
    let event = make_fixed_event("FIXED_CYCLES", 0);
    assert!(event.is_fixed());
    assert!(!event.is_configurable());
}

#[test]
fn configurable_event_classification() {
    let event = make_config_event("L1D_MISS", 42);
    assert!(event.is_configurable());
    assert!(!event.is_fixed());
}

#[test]
fn event_with_both_fixed_and_number_is_fixed() {
    let event = KpepEvent {
        name: "DUAL".to_string(),
        description: String::new(),
        number: Some(42),
        counters_mask: None,
        pc_capture_counters_mask: None,
        fixed_counter: Some(0),
        fallback: None,
    };
    assert!(event.is_fixed());
    assert!(!event.is_configurable());
}

#[test]
fn event_with_neither_is_neither() {
    let event = KpepEvent {
        name: "EMPTY".to_string(),
        description: String::new(),
        number: None,
        counters_mask: None,
        pc_capture_counters_mask: None,
        fixed_counter: None,
        fallback: None,
    };
    assert!(!event.is_fixed());
    assert!(!event.is_configurable());
}

/// Build a minimal kpep plist Value for testing the parser.
fn build_test_plist(
    events: Vec<(&str, Option<u64>, Option<u64>)>,
    aliases: Vec<(&str, &str)>,
) -> Value {
    let mut events_dict = Dictionary::new();
    for (name, number, fixed_counter) in events {
        let mut ev = Dictionary::new();
        ev.insert(
            "description".to_string(),
            Value::String(format!("{name} desc")),
        );
        if let Some(n) = number {
            ev.insert("number".to_string(), Value::Integer(n.into()));
        }
        if let Some(fc) = fixed_counter {
            ev.insert("fixed_counter".to_string(), Value::Integer(fc.into()));
        }
        events_dict.insert(name.to_string(), Value::Dictionary(ev));
    }

    let mut alias_dict = Dictionary::new();
    for (alias, target) in aliases {
        alias_dict.insert(alias.to_string(), Value::String(target.to_string()));
    }

    let mut cpu = Dictionary::new();
    cpu.insert(
        "architecture".to_string(),
        Value::String("arm64".to_string()),
    );
    cpu.insert(
        "marketing_name".to_string(),
        Value::String("Test CPU".to_string()),
    );
    cpu.insert("fixed_counters".to_string(), Value::Integer(2.into()));
    cpu.insert("config_counters".to_string(), Value::Integer(8.into()));
    cpu.insert("events".to_string(), Value::Dictionary(events_dict));
    cpu.insert("aliases".to_string(), Value::Dictionary(alias_dict));

    let mut system = Dictionary::new();
    system.insert("cpu".to_string(), Value::Dictionary(cpu));

    let mut root = Dictionary::new();
    root.insert("name".to_string(), Value::String("test_db".to_string()));
    root.insert("system".to_string(), Value::Dictionary(system));

    Value::Dictionary(root)
}

#[test]
fn parse_minimal_database() {
    let plist = build_test_plist(vec![("TEST_EVENT", Some(42), None)], vec![]);
    let db = KpepDatabase::parse(plist).unwrap();

    assert_eq!(db.name, "test_db");
    assert_eq!(db.cpu.marketing_name, "Test CPU");
    assert_eq!(db.cpu.architecture, "arm64");
    assert_eq!(db.cpu.fixed_counters, 2);
    assert_eq!(db.cpu.config_counters, 8);
    assert_eq!(db.events().len(), 1);
    assert_eq!(db.events()[0].name, "TEST_EVENT");
    assert_eq!(db.events()[0].number, Some(42));
}

#[test]
fn parse_mixed_fixed_and_configurable() {
    let plist = build_test_plist(
        vec![
            ("FIXED_CYCLES", None, Some(0)),
            ("FIXED_INSTRUCTIONS", None, Some(1)),
            ("L1D_MISS", Some(10), None),
            ("BRANCH_MISS", Some(20), None),
        ],
        vec![],
    );
    let db = KpepDatabase::parse(plist).unwrap();

    let fixed: Vec<_> = db.fixed_events();
    let config: Vec<_> = db.configurable_events();

    assert_eq!(fixed.len(), 2);
    assert_eq!(config.len(), 2);
}

#[test]
fn event_by_name_direct_lookup() {
    let plist = build_test_plist(vec![("L1D_MISS", Some(10), None)], vec![]);
    let db = KpepDatabase::parse(plist).unwrap();

    assert!(db.event_by_name("L1D_MISS").is_some());
    assert!(db.event_by_name("NONEXISTENT").is_none());
}

#[test]
fn event_by_name_resolves_alias() {
    let plist = build_test_plist(
        vec![("FIXED_CYCLES", None, Some(0))],
        vec![("Cycles", "FIXED_CYCLES")],
    );
    let db = KpepDatabase::parse(plist).unwrap();

    let event = db.event_by_name("Cycles").unwrap();
    assert_eq!(event.name, "FIXED_CYCLES");
}

#[test]
fn events_sorted_by_name() {
    let plist = build_test_plist(
        vec![
            ("ZEBRA", Some(3), None),
            ("ALPHA", Some(1), None),
            ("MIDDLE", Some(2), None),
        ],
        vec![],
    );
    let db = KpepDatabase::parse(plist).unwrap();

    let names: Vec<_> = db.events().iter().map(|e| e.name.as_str()).collect();
    assert_eq!(names, vec!["ALPHA", "MIDDLE", "ZEBRA"]);
}

#[test]
fn parse_rejects_non_dict_root() {
    let result = KpepDatabase::parse(Value::String("not a dict".to_string()));
    assert!(result.is_err());
}

fn document(value: &Value) -> Vec<u8> {
    let mut bytes = Vec::new();
    value.to_writer_binary(&mut bytes).unwrap();
    bytes
}

fn sample() -> Value {
    build_test_plist(
        vec![
            ("FIXED_CYCLES", None, Some(0)),
            ("L1D_MISS", Some(10), None),
        ],
        vec![("Cycles", "FIXED_CYCLES")],
    )
}

#[test]
fn load_current_cpu_succeeds() {
    // The full path: sysctl replies, then the plist that is found, then its events.
    let state = KpepDatabase::load_current_cpu(
        CpuLoad::ReadCpuInfo,
        CpuLoadEvent::CpuInfo(Ok(0x100000c), Ok(2), Ok(0xda33d83d)),
    );
    assert!(matches!(state, CpuLoad::CheckFile(_)));
    let state = KpepDatabase::load_current_cpu(state, CpuLoadEvent::FileExists(true));
    match &state {
        CpuLoad::ReadFile { file, path } => {
            assert_eq!(*file, DatabaseFile::Exact);
            assert_eq!(path, "/usr/share/kpep/cpu_100000c_2_da33d83d.plist");
        }
        other => panic!("{other:?}"),
    }
    let state =
        KpepDatabase::load_current_cpu(state, CpuLoadEvent::Contents(Ok(document(&sample()))));
    let db = match state {
        CpuLoad::Finished(result) => result.unwrap(),
        other => panic!("{other:?}"),
    };
    assert!(!db.events().is_empty());
    assert!(db.cpu.fixed_counters > 0);
    assert!(db.cpu.config_counters > 0);
}

#[test]
fn load_current_cpu_takes_a_substitute() {
    let cpu = CpuId { cpu_type: 0x100000c, cpu_subtype: 2, cpu_family: 1 };
    let state =
        KpepDatabase::load_current_cpu(CpuLoad::CheckFile(cpu), CpuLoadEvent::FileExists(false));
    let names = vec![
        "README".to_string(),
        "cpu_100000c_1_1.plist".to_string(),
        "cpu_100000c_2_2.txt".to_string(),
        "cpu_100000c_2_7.plist".to_string(),
        "cpu_100000c_2_8.plist".to_string(),
    ];
    let state = KpepDatabase::load_current_cpu(state, CpuLoadEvent::Directory(names));
    match &state {
        CpuLoad::ReadFile { file, path } => {
            assert_eq!(*file, DatabaseFile::Listed(3));
            assert_eq!(path, "/usr/share/kpep/cpu_100000c_2_7.plist");
        }
        other => panic!("{other:?}"),
    }
    // What is not asked for changes nothing.
    let state = KpepDatabase::load_current_cpu(state, CpuLoadEvent::FileExists(true));
    assert!(matches!(state, CpuLoad::ReadFile { .. }));
    let state = KpepDatabase::load_current_cpu(
        state,
        CpuLoadEvent::Contents(Err("permission denied".to_string())),
    );
    match state {
        CpuLoad::Finished(Err(error)) => assert_eq!(
            error.message(),
            "failed to read kpep database at /usr/share/kpep/cpu_100000c_2_7.plist: permission denied"
        ),
        other => panic!("{other:?}"),
    }
}

#[test]
fn load_current_cpu_finds_nothing() {
    let cpu = CpuId { cpu_type: 0x100000c, cpu_subtype: 17, cpu_family: 0xff };
    let state = KpepDatabase::load_current_cpu(
        CpuLoad::ListDirectory(cpu),
        CpuLoadEvent::Directory(vec!["cpu_100000c_2_7.plist".to_string()]),
    );
    match state {
        CpuLoad::Finished(Err(error)) => assert_eq!(
            error.message(),
            "kpep database not found for cpu_type=0x100000c cpu_subtype=17 cpu_family=0xff"
        ),
        other => panic!("{other:?}"),
    }
    assert_eq!(find_database_path(cpu, true, &vec![]).unwrap(), DatabaseFile::Exact);
    assert!(find_database_path(cpu, false, &vec![]).is_err());
    assert_eq!(
        find_database_path(cpu, false, &vec!["cpu_100000c_11_1.plist".to_string()]).unwrap(),
        DatabaseFile::Listed(0)
    );
}

#[test]
fn first_sysctl_failure_is_reported() {
    let failure = || Err("hw.cputype: errno 2".to_string());
    let later = || Err("hw.cpufamily: errno 3".to_string());
    match read_cpu_info(failure(), Ok(1), later()) {
        Err(error) => assert_eq!(error.message(), "sysctl failed: hw.cputype: errno 2"),
        Ok(cpu) => panic!("{cpu:?}"),
    }
    match read_cpu_info(Ok(1), Ok(1), later()) {
        Err(error) => assert_eq!(error.message(), "sysctl failed: hw.cpufamily: errno 3"),
        Ok(cpu) => panic!("{cpu:?}"),
    }
    assert_eq!(read_cpu_info(Ok(1), Ok(2), Ok(3)).unwrap().file_name(), "cpu_1_2_3.plist");
}

#[test]
fn load_from_path_reads_every_encoding() {
    let value = sample();
    let mut xml = Vec::new();
    value.to_writer_xml(&mut xml).unwrap();
    for bytes in [document(&value), xml] {
        let db = KpepDatabase::load_from_path("db.plist".to_string(), Ok(bytes)).unwrap();
        assert_eq!(db.name(), "test_db");
        assert_eq!(db.cpu().aliases.get("Cycles"), Some("FIXED_CYCLES"));
        assert_eq!(db.events().len(), 2);
        assert_eq!(db.events()[0].description, "FIXED_CYCLES desc");
        assert_eq!(db.events()[0].fixed_counter, Some(0));
        assert_eq!(db.events()[1].number, Some(10));
    }
}

#[test]
fn load_from_path_reports_unreadable_documents() {
    let result = KpepDatabase::load_from_path("db.plist".to_string(), Ok(vec![1, 2, 3]));
    match result {
        Err(KpepError::ReadError { path, source }) => {
            assert_eq!(path, "db.plist");
            let expected = Value::from_reader(std::io::Cursor::new(vec![1u8, 2, 3])).unwrap_err();
            assert_eq!(source, expected.to_string());
        }
        other => panic!("{other:?}"),
    }
}

#[test]
fn structure_errors_say_what_is_missing() {
    let message = |root: Plist| KpepDatabase::from_plist(&root).unwrap_err().message();
    let under = |key: &str, value: Plist| Plist::Dictionary(vec![(key.to_string(), value)]);
    assert_eq!(message(Plist::Other), "unexpected plist structure: root is not a dict");
    assert_eq!(message(under("name", Plist::Other)), "unexpected plist structure: missing system");
    assert_eq!(
        message(under("system", Plist::Text("cpu".to_string()))),
        "unexpected plist structure: missing system"
    );
    assert_eq!(
        message(under("system", under("gpu", Plist::Other))),
        "unexpected plist structure: missing system.cpu"
    );
    assert_eq!(
        message(under("system", under("cpu", under("events", Plist::Unsigned(1))))),
        "unexpected plist structure: missing system.cpu.events"
    );
}

#[test]
fn other_errors_have_their_texts() {
    assert_eq!(
        KpepError::NoDefaultDatabase.message(),
        "On platforms other than macos, there is no default kpep database. Please pass a path to a kpep database"
    );
    let source = Value::from_reader(std::io::Cursor::new(Vec::new())).unwrap_err();
    let expected = format!("failed to parse kpep plist: {source}");
    assert_eq!(KpepError::from(source).message(), expected);
}

#[test]
fn missing_fields_have_defaults() {
    let mut cpu = Dictionary::new();
    let mut events = Dictionary::new();
    let mut event = Dictionary::new();
    event.insert("number".to_string(), Value::Integer((-1i64).into()));
    event.insert("counters_mask".to_string(), Value::Integer(u64::MAX.into()));
    event.insert("pc_capture_counters_mask".to_string(), Value::Integer(3u64.into()));
    event.insert("fallback".to_string(), Value::String("OTHER".to_string()));
    events.insert("E".to_string(), Value::Dictionary(event));
    events.insert("NOT_A_DICT".to_string(), Value::Boolean(true));
    cpu.insert("events".to_string(), Value::Dictionary(events));
    cpu.insert("architecture".to_string(), Value::Integer(1.into()));
    let mut system = Dictionary::new();
    system.insert("cpu".to_string(), Value::Dictionary(cpu));
    let mut root = Dictionary::new();
    root.insert("system".to_string(), Value::Dictionary(system));
    let db = KpepDatabase::parse(Value::Dictionary(root)).unwrap();

    assert_eq!(db.name, "unknown");
    assert_eq!(db.cpu.architecture, "unknown");
    assert_eq!(db.cpu.marketing_name, "unknown");
    assert_eq!(db.cpu.fixed_counters, 0);
    assert_eq!(db.cpu.config_counters, 0);
    assert!(db.cpu.aliases.is_empty());
    assert_eq!(db.events().len(), 1);
    let event = db.events()[0].clone();
    assert_eq!(event.name, "E");
    assert_eq!(event.description, "");
    assert_eq!(event.number, None);
    assert_eq!(event.counters_mask, Some(u64::MAX));
    assert_eq!(event.pc_capture_counters_mask, Some(3));
    assert_eq!(event.fixed_counter, None);
    assert_eq!(event.fallback.as_deref(), Some("OTHER"));
}

#[test]
fn events_without_number_come_first_and_equal_numbers_keep_their_order() {
    let plist = build_test_plist(
        vec![
            ("C", Some(2), None),
            ("B", Some(1), None),
            ("Y", None, Some(1)),
            ("A", Some(2), None),
            ("D", Some(1), None),
            ("X", None, Some(0)),
        ],
        vec![],
    );
    let db = KpepDatabase::parse(plist).unwrap();
    let names: Vec<_> = db.events().iter().map(|e| e.name.as_str()).collect();
    assert_eq!(names, vec!["Y", "X", "B", "D", "C", "A"]);
}

#[test]
fn alias_comes_before_event_of_the_same_name() {
    let plist = build_test_plist(
        vec![("A", Some(1), None), ("B", Some(2), None)],
        vec![("A", "B"), ("LOST", "NOWHERE")],
    );
    let db = KpepDatabase::parse(plist).unwrap();
    assert_eq!(db.event_by_name("A").unwrap().name, "B");
    assert_eq!(db.event_by_name("B").unwrap().name, "B");
    assert!(db.event_by_name("LOST").is_none());
}

#[test]
fn repeated_keys_give_one_event() {
    let text = "<plist version=\"1.0\"><dict><key>system</key><dict><key>cpu</key><dict>\
        <key>aliases</key><dict><key>A</key><string>E</string><key>B</key><true/></dict>\
        <key>events</key><dict>\
        <key>E</key><dict><key>number</key><integer>1</integer></dict>\
        <key>E</key><dict><key>number</key><integer>2</integer></dict>\
        </dict></dict></dict></dict></plist>";
    let db =
        KpepDatabase::load_from_path("x".to_string(), Ok(text.as_bytes().to_vec())).unwrap();
    assert_eq!(db.events().len(), 1);
    assert_eq!(db.cpu.aliases.len(), 1);
    assert_eq!(db.event_by_name("A").unwrap().name, "E");
}

#[test]
fn alias_table_replaces_and_keeps() {
    let mut table = apmc::aliases::AliasTable::new();
    assert!(table.is_empty());
    table.insert("a".to_string(), "x".to_string());
    table.insert("b".to_string(), "y".to_string());
    table.insert("a".to_string(), "z".to_string());
    assert_eq!(table.len(), 2);
    assert_eq!(table.get("a"), Some("z"));
    assert_eq!(table.get("b"), Some("y"));
    assert_eq!(table.get("c"), None);
    let copy = table.clone();
    assert_eq!(copy.entry(0), ("a", "z"));
    assert_eq!(copy.entry(1), ("b", "y"));
}

#[test]
fn values_are_taken_over() {
    let mut inner = Dictionary::new();
    inner.insert("z".to_string(), Value::Integer(7.into()));
    inner.insert("a".to_string(), Value::Array(vec![]));
    match Plist::from_value(&Value::Dictionary(inner)) {
        Plist::Dictionary(entries) => {
            assert_eq!(entries.len(), 2);
            assert_eq!(entries[0].0, "z");
            assert!(matches!(entries[0].1, Plist::Unsigned(7)));
            assert_eq!(entries[1].0, "a");
            assert!(matches!(entries[1].1, Plist::Other));
        }
        other => panic!("{other:?}"),
    }
    assert!(matches!(Plist::from_value(&Value::Real(1.0)), Plist::Other));
    match Plist::from_value(&Value::String("s".to_string())) {
        Plist::Text(text) => assert_eq!(text, "s"),
        other => panic!("{other:?}"),
    }
}
