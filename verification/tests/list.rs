//! The `list` command.

use apmc::kpep::KpepDatabase;
use apmc::list::{format_event_number, format_list, format_mask, is_mentioned};
use apmc::text::{contains, ends_with, find, hexadecimal_text, starts_with};
use plist::{Dictionary, Value};

fn event(fields: &[(&str, u64)], description: &str) -> Value {
    let mut event = Dictionary::new();
    event.insert("description".to_string(), Value::String(description.to_string()));
    for (key, value) in fields {
        event.insert(key.to_string(), Value::Integer((*value).into()));
    }
    Value::Dictionary(event)
}

fn database(with_extras: bool) -> KpepDatabase {
    let mut events = Dictionary::new();
    events.insert(
        "L1D_CACHE_MISS".to_string(),
        event(&[("number", 0xa3), ("counters_mask", 224)], "Missed loads"),
    );
    events.insert("MAP_STALL".to_string(), event(&[("number", 7)], "Map unit stalled"));
    events.insert("NEITHER".to_string(), event(&[], "cache of nothing"));
    if with_extras {
        events.insert("FIXED_CYCLES".to_string(), event(&[("fixed_counter", 0)], "Cycles"));
    }
    let mut cpu = Dictionary::new();
    cpu.insert("architecture".to_string(), Value::String("arm64".to_string()));
    cpu.insert("marketing_name".to_string(), Value::String("Test CPU".to_string()));
    cpu.insert("fixed_counters".to_string(), Value::Integer(2.into()));
    cpu.insert("config_counters".to_string(), Value::Integer(8.into()));
    cpu.insert("events".to_string(), Value::Dictionary(events));
    if with_extras {
        let mut aliases = Dictionary::new();
        aliases.insert("Cycles".to_string(), Value::String("FIXED_CYCLES".to_string()));
        cpu.insert("aliases".to_string(), Value::Dictionary(aliases));
    }
    let mut system = Dictionary::new();
    system.insert("cpu".to_string(), Value::Dictionary(cpu));
    let mut root = Dictionary::new();
    root.insert("system".to_string(), Value::Dictionary(system));
    KpepDatabase::parse(Value::Dictionary(root)).unwrap()
}

const HEAD: &str = "CPU: Test CPU (arm64)\nFixed counters: 2, Configurable counters: 8\n";

#[test]
fn list_without_extras() {
    let expected = format!(
        "{HEAD}\nConfigurable events:\n  [0x07] {:<35} (any slot) Map unit stalled\n  [0xa3] {:<35} (mask=0xe0) Missed loads\n\n2 events listed.\n",
        "MAP_STALL", "L1D_CACHE_MISS"
    );
    assert_eq!(format_list(&database(false), None), expected);
}

#[test]
fn list_with_aliases_and_fixed_counters() {
    let expected = format!(
        "{HEAD}\nAliases:\n  Cycles -> FIXED_CYCLES\n\nFixed counters:\n  [fixed 0] {:<35} Cycles\n\nConfigurable events:\n  [0x07] {:<35} (any slot) Map unit stalled\n  [0xa3] {:<35} (mask=0xe0) Missed loads\n\n2 events listed.\n",
        "FIXED_CYCLES", "MAP_STALL", "L1D_CACHE_MISS"
    );
    assert_eq!(format_list(&database(true), None), expected);
}

#[test]
fn filter_applies_to_all_events() {
    let expected = format!(
        "{HEAD}\nAliases:\n  Cycles -> FIXED_CYCLES\n\nConfigurable events:\n  [0xa3] {:<35} (mask=0xe0) Missed loads\n\n1 events listed.\n",
        "L1D_CACHE_MISS"
    );
    assert_eq!(format_list(&database(true), Some("cache")), expected);
    assert_eq!(format_list(&database(true), Some("MISSED")), expected);
    let fixed = format!(
        "{HEAD}\nAliases:\n  Cycles -> FIXED_CYCLES\n\nFixed counters:\n  [fixed 0] {:<35} Cycles\n\nConfigurable events:\n\n0 events listed.\n",
        "FIXED_CYCLES"
    );
    assert_eq!(format_list(&database(true), Some("fixed_")), fixed);
}

fn extract_event_count(output: &str) -> usize {
    for line in output.lines() {
        if line.contains("events listed") {
            return line
                .split_whitespace()
                .next()
                .and_then(|n| n.parse().ok())
                .unwrap_or(0);
        }
    }
    0
}

#[test]
fn list_shows_cpu_and_events() {
    let text = format_list(&database(true), None);
    assert!(text.contains("CPU:"));
    assert!(text.contains("events listed"));
}

#[test]
fn list_filter_narrows_results() {
    let all_count = extract_event_count(&format_list(&database(true), None));
    let filtered_count = extract_event_count(&format_list(&database(true), Some("CACHE")));
    assert!(filtered_count < all_count, "filter should narrow results");
    assert!(filtered_count > 0, "CACHE filter should match some events");
    assert_eq!(
        format_list(&database(true), Some("cAcHe")),
        format_list(&database(true), Some("CACHE"))
    );
}

#[test]
fn list_filter_no_match_shows_zero() {
    let text = format_list(&database(false), Some("ZZZZZ_NO_MATCH_EVER_ZZZZZ"));
    assert!(text.contains("0 events listed"));
    assert_eq!(text, format!("{HEAD}\nConfigurable events:\n\n0 events listed.\n"));
}

#[test]
fn empty_filter_lists_everything() {
    assert_eq!(format_list(&database(true), Some("")), format_list(&database(true), None));
}

#[test]
fn filter_lowers_beyond_ascii() {
    let mut events = Dictionary::new();
    events.insert("E".to_string(), event(&[("number", 1)], "Ä STRASSE"));
    let mut cpu = Dictionary::new();
    cpu.insert("events".to_string(), Value::Dictionary(events));
    let mut system = Dictionary::new();
    system.insert("cpu".to_string(), Value::Dictionary(cpu));
    let mut root = Dictionary::new();
    root.insert("system".to_string(), Value::Dictionary(system));
    let db = KpepDatabase::parse(Value::Dictionary(root)).unwrap();
    assert!(format_list(&db, Some("ä strasse")).ends_with("\n1 events listed.\n"));
}

#[test]
fn pieces_of_lines() {
    for n in [0u64, 1, 15, 16, 255, 256, 0xdead_beef, u64::MAX] {
        assert_eq!(format_event_number(n), format!("{n:#04x}"));
        assert_eq!(hexadecimal_text(n), format!("{n:x}"));
    }
    assert_eq!(format_mask(Some(0xe0)), "mask=0xe0");
    assert_eq!(format_mask(None), "any slot");
    assert!(is_mentioned("l1d_cache", "loads", "cache"));
    assert!(is_mentioned("l1d_cache", "loads", "load"));
    assert!(!is_mentioned("l1d_cache", "loads", "store"));
}

#[test]
fn searching_in_text() {
    for text in ["", "a", "ab", "aab", "äbäb", "cpu_1_2_3.plist"] {
        for pattern in ["", "a", "b", "ab", "äb", ".plist", "cpu_", "aabb"] {
            assert_eq!(contains(text, pattern), text.contains(pattern));
            assert_eq!(starts_with(text, pattern), text.starts_with(pattern));
            assert_eq!(ends_with(text, pattern), text.ends_with(pattern));
            let position = text.find(pattern).map(|at| text[..at].chars().count());
            assert_eq!(find(text, pattern), position);
        }
    }
}
