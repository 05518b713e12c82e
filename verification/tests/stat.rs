//! The `stat` command: its results, its decisions and its report.

use apmc::inject::{read_all_inject_results, sum_inject_results, ByteOrder, CounterSnapshot};
use apmc::kpep::{KpepDatabase, KpepEvent};
use apmc::report::{format_results, shorten, Decimal, Report};
use apmc::stat::{
    child_environment, describe_cpu, drop_privileges, events_or_default, fmt_comma, parse_u32,
    per_process_interval, pick_style, select_events,
};
use apmc::text::{decimal_text, white_space};

#[test]
fn fmt_comma_zero() {
    assert_eq!(fmt_comma(0), "0");
}

#[test]
fn fmt_comma_small() {
    assert_eq!(fmt_comma(1), "1");
    assert_eq!(fmt_comma(999), "999");
}

#[test]
fn fmt_comma_thousands() {
    assert_eq!(fmt_comma(1_000), "1,000");
    assert_eq!(fmt_comma(1_234_567), "1,234,567");
    assert_eq!(fmt_comma(1_000_000_000), "1,000,000,000");
}

#[test]
fn fmt_comma_u64_max() {
    let s = fmt_comma(u64::MAX);
    assert!(s.contains(','));
    // u64::MAX = 18,446,744,073,709,551,615
    assert_eq!(s, "18,446,744,073,709,551,615");
}

#[test]
fn fmt_comma_only_adds_commas() {
    for value in [0u64, 7, 10, 99, 100, 1_001, 10_010, 100_100, 9_999_999, u64::MAX] {
        assert_eq!(fmt_comma(value).replace(',', ""), value.to_string());
        assert_eq!(decimal_text(value), value.to_string());
    }
}

fn message(values: &[u64]) -> Vec<u8> {
    let mut bytes = (values.len() as u32).to_ne_bytes().to_vec();
    for value in values {
        bytes.extend_from_slice(&value.to_ne_bytes());
    }
    bytes
}

#[test]
fn pipe_roundtrip_inject_protocol() {
    let snap = read_all_inject_results(&message(&[100, 200, 300]), 2).unwrap();
    assert_eq!(snap.values, vec![100, 200, 300]);
    assert_eq!(snap.n_fixed, 2);
}

#[test]
fn pipe_roundtrip_multiple_messages() {
    // Three processes each write a result message.
    let mut bytes = Vec::new();
    for multiplier in [1u64, 2, 3] {
        let values: Vec<u64> = [100u64, 200, 300].iter().map(|v| v * multiplier).collect();
        bytes.extend(message(&values));
    }

    let snap = read_all_inject_results(&bytes, 2).unwrap();
    // 100*(1+2+3)=600, 200*(1+2+3)=1200, 300*(1+2+3)=1800
    assert_eq!(snap.values, vec![600, 1200, 1800]);
    assert_eq!(snap.n_fixed, 2);
}

#[test]
fn inject_results_empty_pipe_returns_none() {
    assert!(read_all_inject_results(&[], 2).is_none());
}

#[test]
fn inject_results_zero_count_returns_none() {
    assert!(read_all_inject_results(&0u32.to_ne_bytes(), 2).is_none());
}

#[test]
fn inject_results_count_too_large_returns_none() {
    assert!(read_all_inject_results(&17u32.to_ne_bytes(), 2).is_none());
    assert!(read_all_inject_results(&message(&[1; 17]), 2).is_none());
    assert_eq!(read_all_inject_results(&message(&[1; 16]), 2).unwrap().values, vec![1; 16]);
}

#[test]
fn inject_results_valid_then_truncated_returns_valid() {
    // First message: complete.
    let mut bytes = message(&[50, 60]);
    // Second message: header only, no data (a process that crashed).
    bytes.extend_from_slice(&2u32.to_ne_bytes());

    let snap = read_all_inject_results(&bytes, 2).unwrap();
    assert_eq!(snap.values, vec![50, 60]);
}

#[test]
fn inject_results_truncated_data_returns_none() {
    // count=2 but only one u64 value (incomplete)
    let mut bytes = 2u32.to_ne_bytes().to_vec();
    bytes.extend_from_slice(&42u64.to_ne_bytes());

    assert!(read_all_inject_results(&bytes, 2).is_none());
}

#[test]
fn sums_wrap_around_and_other_lengths_are_ignored() {
    let mut bytes = message(&[u64::MAX, 1]);
    bytes.extend(message(&[5, 5, 5]));
    bytes.extend(message(&[3, 4]));
    let snap = read_all_inject_results(&bytes, 1).unwrap();
    assert_eq!(snap.values, vec![2, 5]);
}

#[test]
fn both_byte_orders_are_decoded() {
    let little = [2, 0, 0, 0, 1, 2, 0, 0, 0, 0, 0, 0, 0, 0, 0, 0, 0, 0, 0, 0x80];
    let snap = sum_inject_results(ByteOrder::Little, &little, 1).unwrap();
    assert_eq!(snap.values, vec![0x201, 1 << 63]);
    let big = [0, 0, 0, 1, 0, 0, 0, 0, 0, 0, 1, 2];
    let snap = sum_inject_results(ByteOrder::Big, &big, 1).unwrap();
    assert_eq!(snap.values, vec![0x102]);
    assert!(sum_inject_results(ByteOrder::Little, &big, 1).is_none());
}

fn event(name: &str, description: &str, number: u64) -> KpepEvent {
    KpepEvent {
        name: name.to_string(),
        description: description.to_string(),
        number: Some(number),
        counters_mask: None,
        pc_capture_counters_mask: None,
        fixed_counter: None,
        fallback: None,
    }
}

fn database() -> KpepDatabase {
    let text = "<plist version=\"1.0\"><dict><key>system</key><dict><key>cpu</key><dict>\
        <key>aliases</key><dict><key>Cycles</key><string>FIXED_CYCLES</string></dict>\
        <key>events</key><dict>\
        <key>FIXED_CYCLES</key><dict><key>fixed_counter</key><integer>0</integer></dict>\
        <key>MAP_STALL</key><dict><key>number</key><integer>118</integer></dict>\
        </dict></dict></dict></dict></plist>";
    KpepDatabase::load_from_path("x".to_string(), Ok(text.as_bytes().to_vec())).unwrap()
}

#[test]
fn default_events_when_none_are_asked_for() {
    let names = events_or_default(vec![]);
    assert_eq!(
        names,
        vec![
            "L1D_CACHE_MISS_LD",
            "L1D_CACHE_MISS_ST",
            "ATOMIC_OR_EXCLUSIVE_FAIL",
            "MAP_STALL",
            "LDST_X64_UOP",
            "BRANCH_MISPRED_NONSPEC",
            "MAP_SIMD_UOP",
            "SCHEDULE_EMPTY",
        ]
    );
    assert_eq!(events_or_default(vec!["X".to_string()]), vec!["X"]);
}

#[test]
fn unknown_events_are_skipped_with_a_warning() {
    let db = database();
    let names: Vec<String> =
        ["MAP_STALL", "NOPE", "Cycles"].iter().map(|s| s.to_string()).collect();
    let selection = select_events(&db, &names);
    let found: Vec<_> = selection.events.iter().map(|e| e.name.as_str()).collect();
    assert_eq!(found, vec!["MAP_STALL", "FIXED_CYCLES"]);
    assert_eq!(selection.warnings, vec!["Warning: unknown event 'NOPE', skipping"]);
    assert_eq!(selection.refusal(), None);

    let nothing = select_events(&db, &vec!["NOPE".to_string()]);
    assert_eq!(nothing.refusal(), Some(("No valid events to monitor.", 1)));
}

#[test]
fn cpu_is_described() {
    assert_eq!(
        describe_cpu("Apple M2", 2, 8, 10),
        "CPU: Apple M2 (2 fixed + 8 configurable counters, 10 CPUs)"
    );
}

#[test]
fn numbers_are_parsed_as_std_does() {
    for text in [
        "", "+", "-", "0", "+0", "-0", "501", "+20", "4294967295", "4294967296", "00000000000012",
        " 1", "1 ", "1a", "99999999999999999999999", "++1", "\u{0661}",
    ] {
        assert_eq!(parse_u32(text), text.parse::<u32>().ok(), "{text:?}");
    }
}

#[test]
fn privileges_are_dropped_to_the_caller() {
    let some = |text: &str| Some(text.to_string());
    assert_eq!(drop_privileges(some("501"), some("20")), Some((501, 20)));
    assert_eq!(drop_privileges(some("501"), None), None);
    assert_eq!(drop_privileges(None, some("20")), None);
    assert_eq!(drop_privileges(some("me"), some("20")), None);
}

#[test]
fn child_environment_names_pipe_and_mode() {
    let pair = |name: &str, value: &str| (name.to_string(), value.to_string());
    let dylib = || "/tmp/x.dylib".to_string();
    assert_eq!(
        child_environment(dylib(), 7, false),
        vec![pair("DYLD_INSERT_LIBRARIES", "/tmp/x.dylib"), pair("KPC_RESULT_FD", "7")]
    );
    assert_eq!(
        child_environment(dylib(), 12, true),
        vec![
            pair("DYLD_INSERT_LIBRARIES", "/tmp/x.dylib"),
            pair("KPC_RESULT_FD", "12"),
            pair("APMC_REGION_MODE", "1"),
        ]
    );
}

#[test]
fn per_process_results_start_from_zero() {
    let snapshot = CounterSnapshot { values: vec![3, 4, 5], n_fixed: 2 };
    let (start, end) = per_process_interval(Some(snapshot)).unwrap();
    assert_eq!(start.values, vec![0, 0, 0]);
    assert_eq!(start.n_fixed, 2);
    assert_eq!(end.values, vec![3, 4, 5]);
    assert_eq!(
        per_process_interval(None).unwrap_err(),
        "per-process counting failed: no results from inject dylib"
    );
}

#[test]
fn style_follows_terminal_and_options() {
    let on = pick_style(false, false, true);
    assert_eq!(on.dim, "\x1b[2m");
    assert_eq!(on.blue, "\x1b[34m");
    assert_eq!(on.bold, "\x1b[1m");
    assert_eq!(on.red, "\x1b[31m");
    assert_eq!(on.reset, "\x1b[0m");
    for (no_color, environment, terminal) in
        [(true, false, true), (false, true, true), (false, false, false)]
    {
        let off = pick_style(no_color, environment, terminal);
        assert_eq!(off.dim, "");
        assert_eq!(off.blue, "");
        assert_eq!(off.bold, "");
        assert_eq!(off.red, "");
        assert_eq!(off.reset, "");
    }
}

#[test]
fn descriptions_lose_their_asides() {
    assert_eq!(shorten("Loads that missed  (speculative) (all)"), "Loads that missed");
    assert_eq!(shorten("Loads(all)"), "Loads(all)");
    assert_eq!(shorten(" (all)"), "");
    assert_eq!(shorten("tab\t\u{2003} (x)"), "tab");
    assert_eq!(shorten(""), "");
}

#[test]
fn white_space_is_that_of_unicode() {
    for code in 0..=0x10ffffu32 {
        if let Some(c) = char::from_u32(code) {
            assert_eq!(white_space(c), c.is_whitespace(), "{code:x}");
        }
    }
}

#[test]
fn decimals_are_digits_and_dots() {
    assert_eq!(Decimal::new("0.25".to_string()).unwrap().as_str(), "0.25");
    for text in ["-1", "1e5", "NaN", "\x1b[0m", "1 "] {
        assert!(Decimal::new(text.to_string()).is_none());
    }
}

#[test]
fn report_is_laid_out() {
    let known = event("MAP_STALL", "Stalled in map (any reason)", 118);
    let events = vec![&known];
    let mut report = Report {
        command: vec!["sleep".to_string(), "1".to_string()],
        cycles: 1_234_567,
        instructions: 2_469_134,
        ipc: Decimal::new("2.00".to_string()).unwrap(),
        counters: vec![("MAP_STALL".to_string(), 42), ("A_RATHER_LONG_NAME".to_string(), 7)],
        seconds: Decimal::new("1.002003".to_string()).unwrap(),
        success: true,
        exit_code: Some(0),
    };
    let plain = pick_style(true, false, true);
    let head = "\n Performance counter stats for 'sleep 1':\n\n             1,234,567  cycles\n";
    let body = format!(
        "  {:>20}  {:<18}  # 2.00 insn per cycle\n\n  {:>20}  {:<18}  # Stalled in map\n  {:>20}  A_RATHER_LONG_NAME\n",
        "2,469,134", "instructions", "42", "MAP_STALL", "7"
    );
    assert_eq!(
        format_results(&report, &events, &plain),
        format!("{head}{body}\n  {:>16} seconds wall clock\n\n", "1.002003")
    );

    report.success = false;
    report.exit_code = Some(-3);
    assert_eq!(
        format_results(&report, &events, &plain),
        format!("{head}{body}\n  {:>16} seconds wall clock\n  (exit status Some(-3))\n\n", "1.002003")
    );
    report.exit_code = None;
    assert!(format_results(&report, &events, &plain).contains("(exit status None)\n"));

    let colored = format_results(&report, &events, &pick_style(false, false, true));
    assert!(colored.contains("  \x1b[34m                  42\x1b[0m  \x1b[1mMAP_STALL\x1b[0m           \x1b[2m# Stalled in map\x1b[0m\n"));
    assert!(colored.contains("  \x1b[31m(exit status None)\x1b[0m\n"));
    let columns: Vec<_> = format_results(&report, &events, &plain)
        .lines()
        .filter_map(|line| line.find('#'))
        .collect();
    assert_eq!(columns, vec![26 + "A_RATHER_LONG_NAME".len(); 2]);
    let mut bare = colored.clone();
    for code in ["\x1b[2m", "\x1b[34m", "\x1b[1m", "\x1b[31m", "\x1b[0m"] {
        bare = bare.replace(code, "");
    }
    assert_ne!(bare, colored);
    assert_eq!(bare, format_results(&report, &events, &plain));
}
